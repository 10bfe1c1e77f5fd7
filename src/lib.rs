pub mod encoding;
pub mod harness;
pub mod migration;
pub mod record;
pub mod status;
pub mod storage;
