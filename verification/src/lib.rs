pub mod addr;
pub mod api;
pub mod posix_fns;
pub mod server;
