//! The platform-independent parts of the clipboard back ends: the X11 back
//! end, its earlier Linux form, and the Windows back end.

pub mod mime;
pub mod x11;
pub mod linux;
pub mod windows;
