//! The rules of a downloader for the levels that rhythm.cafe lists.
//!
//! Nothing here touches the network, the disk or the terminal. The caller
//! does that, and asks this library what to do next:
//!
//! - [`api`] walks the pages of the catalog and gathers the URLs of the
//!   levels;
//! - [`filename`] resolves the name under which a download is stored;
//! - [`collision`] gives every download a path that no other has;
//! - [`download`] runs one download step by step, and keeps a batch within
//!   the chosen number of simultaneous downloads;
//! - [`prefs`] holds the user's preferences and checks the answers;
//! - [`path`] and [`text`] hold what the others need of paths and of text.

pub mod api;
pub mod collision;
pub mod download;
pub mod filename;
pub mod path;
pub mod prefs;
pub mod text;
