pub mod fuse;
