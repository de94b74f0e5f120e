pub mod weather;
