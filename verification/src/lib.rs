//! WirePort core library: WireGuard profile parsing, wireproxy configuration
//! rendering, log handling, data-usage accounting, and the decisions behind
//! starting the proxy, the tray menu and the connection health check.

pub mod text;
pub mod wg_config;
pub mod proxy_config;
pub mod clock;
pub mod usage;
pub mod logs;
pub mod metrics;
pub mod process;
pub mod profiles;
pub mod tray;
pub mod health;
pub mod settings;
