pub mod name_map;
pub mod net;
pub mod router;
pub mod sni;
pub mod text;
pub mod plugins;
pub mod config;
pub mod manager;
pub mod health;
pub mod shutdown;
pub mod routing;
pub mod tls;
pub mod metrics;
pub mod proxy;
pub mod settings;
pub mod reload;
