pub mod mux;
