pub mod rules;
pub mod plugin;
pub mod redis_backend;
