//! Verified core of the blockcell agent runtime: session keys, system events,
//! channel message handling, scheduling, skill versioning and tool validation.

pub mod text;
pub mod session_key;
pub mod system_event;
pub mod capability;
pub mod metrics;
pub mod recent;
pub mod numbers;
pub mod crypto;
pub mod qq;
pub mod qq_gateway;
pub mod whatsapp;
pub mod weixin;
pub mod cron;
pub mod heartbeat;
pub mod versioning;
pub mod memory;
pub mod exec_local;
pub mod html_to_md;
pub mod web;
pub mod agent;
pub mod updater;
pub mod orchestrator;
pub mod strer;
pub mod sorting;
pub mod skills;
pub mod commands;
pub mod tap;
