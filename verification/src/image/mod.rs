pub mod unpack;
