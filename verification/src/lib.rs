pub mod alarm;
pub mod calendar;
pub mod handle;
pub mod history;
pub mod laws;
pub mod machine;
pub mod manager;
pub mod mute;
pub mod naive_time_hm;
pub mod present;
pub mod request;
pub mod ringer;
pub mod schedule;
pub mod store;
