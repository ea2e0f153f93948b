//! Verified core of a Windows file-listing viewer: UTF-16 text for the
//! Win32 list view, directory listing records and their order, and the
//! decisions that the window procedure takes on its messages.

pub mod cache;
pub mod decimal;
pub mod lens;
pub mod listing;
pub mod order;
pub mod wide;
pub mod window;
