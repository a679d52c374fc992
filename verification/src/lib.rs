//! The decision layer of the browser embedding of the Sandbox VM.

pub mod args;
pub mod bytes;
pub mod caps;
pub mod capture;
pub mod card;
pub mod devices;
pub mod eligible;
pub mod entries;
pub mod exports_abi;
pub mod fmt;
pub mod guests;
pub mod imports;
pub mod jspb;
pub mod link;
pub mod modnames;
pub mod nimc;
pub mod op13;
pub mod par;
pub mod par_run;
pub mod pg;
pub mod plan;
pub mod profile;
pub mod reactor;
pub mod runs;
pub mod shell;
pub mod slots;
pub mod sorted;
pub mod status;
pub mod symtab;
pub mod text;
pub mod tierup;
pub mod toposort;
pub mod traps;
pub mod warm;
pub mod window;
