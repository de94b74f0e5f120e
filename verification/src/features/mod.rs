pub mod clients;
pub mod cron;
