//! Host, link and editing logic for register sequences run on a microcontroller.
pub mod bits;
pub mod bus;
pub mod bus_laws;
pub mod catalog;
pub mod crc32;
pub mod error;
pub mod frame;
pub mod le;
pub mod mock;
pub mod text;
pub mod text_laws;
pub mod tracing_bus;
pub mod transport;
pub mod wire;
pub mod wire_laws;
pub mod layout_laws;
pub mod health;
pub mod report;
pub mod capture;
pub mod decoder;
pub mod decoder_options;
pub mod decoder_laws;
pub mod samples;
pub mod processor;
pub mod split;
pub mod stream_laws;
pub mod input;
pub mod numbers;
pub mod bounded;
pub mod ports;
pub mod session;
pub mod program;
pub mod listing;
pub mod order;
pub mod watch;
pub mod watch_text;
pub mod watch_lines;
pub mod csv;
pub mod position;
pub mod completion;
pub mod console;
pub mod semantic;
pub mod scan_laws;
pub mod dump;
pub mod regview;
pub mod panel;
pub mod page;
pub mod register_laws;
pub mod visual;
pub mod visual_source;
pub mod visual_laws;
pub mod blocks;
pub mod edit_laws;
pub mod source_laws;
pub mod modes;
pub mod history;
pub mod workbench;
pub mod connection;
pub mod workspace;
pub mod session_laws;
pub mod view_laws;
pub mod capture_meta;
pub mod shown;
pub mod show_laws;
pub mod metadata;
pub mod cli;
pub mod sources;
pub mod diagnostic;
pub mod line;
pub mod replay;
pub mod restore;
pub mod charts;
pub mod dispatch;
pub mod document;
pub mod editor_source;
pub mod input_laws;
