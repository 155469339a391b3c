//! Verified core of a striped, self-healing archive writer.

pub mod accounting;
pub mod archive;
pub mod archive_reading;
pub mod arith;
pub mod binding;
pub mod byte_map;
pub mod bytes;
pub mod capture;
pub mod clock;
pub mod cmra;
pub mod codec;
pub mod digest;
pub mod emit;
pub mod entry_flags;
pub mod errors;
pub mod flag_reading;
pub mod foresight;
pub mod format;
pub mod header_reading;
pub mod headers;
pub mod hint_reading;
pub mod hints;
pub mod ids;
pub mod index_plan;
pub mod index_reading;
pub mod key_wrap;
pub mod keys;
pub mod line_reading;
pub mod member;
pub mod member_reading;
pub mod members;
pub mod metadata;
pub mod native_flag;
pub mod object_plan;
pub mod objects;
pub mod openings;
pub mod options;
pub mod ordered;
pub mod ordered_reading;
pub mod packing;
pub mod pax;
pub mod payload;
pub mod plain;
pub mod plan;
pub mod plan_reading;
pub mod planning;
pub mod probe;
pub mod profile;
pub mod progress;
pub mod readback;
pub mod reading;
pub mod recovery;
pub mod refusals;
pub mod reorder;
pub mod repeat;
pub mod replay;
pub mod restoration;
pub mod root_auth;
pub mod rows;
pub mod seal;
pub mod seek;
pub mod shard;
pub mod separation;
pub mod shard_reading;
pub mod single_pass;
pub mod sidecar_reading;
pub mod sink;
pub mod sizes;
pub mod sorting;
pub mod source;
pub mod sparse;
pub mod stream;
pub mod streaming;
pub mod suffix;
pub mod survival;
pub mod tally;
pub mod tar;
pub mod tar_reading;
pub mod text;
pub mod two_pass;
pub mod volume_size;
pub mod wire;
pub mod writer;
