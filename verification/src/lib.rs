//! Verified core of a VHDX workspace manager: path rules for the workspace
//! root, the scripts handed to diskpart and DISM, parsers for the text those
//! tools print, the parent locator stored in differencing disks, the
//! decisions taken while a workspace of disks is scanned and edited, and the
//! state machine that provisions a disk's boot files.
pub mod text;
pub mod winpath;
pub mod error;
pub mod paths;
pub mod sys;
pub mod storage;
pub mod vhdx;
pub mod models;
pub mod dism;
pub mod diskpart;
pub mod workspace;
pub mod scan;
pub mod provision;
