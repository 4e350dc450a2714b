//! A verified core for a Welly-style BBS terminal client: the character-cell
//! model, the terminal screen with its cursor, scroll region and wide-cell
//! rules, the ANSI/CSI stream parser, input mappings to the byte sequences a
//! BBS expects, the text scanners used on the visible screen (selections,
//! URLs, image attachments), the SSH config reader, and the font choices.

pub mod ansi_parser;
pub mod api;
pub mod attachment;
pub mod cell;
pub mod config;
pub mod fonts;
pub mod gb18030;
pub mod icon;
pub mod input;
pub mod keys;
pub mod links;
pub mod mouse;
pub mod render;
pub mod selection;
pub mod sequences;
pub mod session;
pub mod snapshot;
pub mod terminal;
pub mod text;
pub mod width;
pub mod wide_cells;
