pub mod addr;
pub mod fd;
pub mod sock;
