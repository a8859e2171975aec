pub mod text;
pub mod parted_parser;
pub mod disk_helper;
pub mod blueprint;
pub mod config;
pub mod exception;
pub mod single_boot_blockdev;
pub mod dual_boot_blockdev;
pub mod os;
pub mod generator;
pub mod mounting;
