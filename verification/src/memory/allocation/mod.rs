pub mod region;
