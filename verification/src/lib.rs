pub mod config;
pub mod decode;
pub mod dirscan;
pub mod imaging;
pub mod natural;
pub mod viewer;
