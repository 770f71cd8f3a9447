//! What a front end needs beside the language.

pub mod timer;
