pub mod weather_client;
