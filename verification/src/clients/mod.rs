pub mod expo_client;
pub mod spans;
pub mod weather_client;
