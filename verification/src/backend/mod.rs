//! Host backends: the terminal frame backend, the browser harness's
//! records and pages, the software rasteriser of the native window, and the
//! window's command line.
pub mod terminal;
pub mod browser;
pub mod raster;
pub mod window;
