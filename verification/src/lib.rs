pub mod buster;
