//! Writes Microsoft Cabinet archives that hold a single MS-ZIP compressed file.
//!
//! The crate has two layers. [`mszip`] is the block codec: it cuts a byte
//! stream into chunks of at most 32 KiB, compresses each chunk into a block
//! that begins with the `CK` signature, and carries the sliding-window
//! dictionary from one block to the next. [`cabinet`] lays those blocks out
//! in a cabinet file, between the fixed records defined in [`records`], and
//! [`structure`] proves what a reader then finds in that file.
//!
//! Around them stand [`deflate`], the streams of `flate2` that the codec
//! drives, [`datetime`] for the modification time of the file, [`le`] for
//! numbers as bytes, [`error`], and [`cli`] for the rules of the command line.
//! The library reads and writes no file: it takes the bytes of the input and
//! returns the bytes of the cabinet.

pub mod error;
pub mod le;
pub mod deflate;
pub mod mszip;
pub mod datetime;
pub mod records;
pub mod cabinet;
pub mod structure;
pub mod cli;
