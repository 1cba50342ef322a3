pub mod state;
