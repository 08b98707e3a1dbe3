//! The stand-alone lister: a variant of the file lister whose long view
//! shows permissions, links, owner, group and Git state, that marks more
//! kinds of secret files and follows `.gitignore` files of every parent
//! directory. Its option parsing, entry rules and text rendering live here;
//! the caller reads the file system and the clock and prints the text.
pub mod calendar;
pub mod entries;
pub mod git;
pub mod ignore;
pub mod options;
pub mod render;
pub mod walk;
