//! Splitting of URI text into its parts, rendering of the parts back into
//! text, and decoding of percent escapes.
//!
//! A URI is read leniently: every text has parts, and nothing is checked
//! beyond what decides where a part ends. [`Uri`] borrows its parts from the
//! text it was read from; [`UriOwned`] holds a copy of each. Both render to
//! the same canonical text. What reading and rendering do is stated over
//! plain text in [`uri::parse`] and [`uri::render`]; what holds of the two
//! together is proved in [`reading`] and [`round_trip`].

pub mod chars;
pub mod error;
pub mod owned;
pub mod percent;
pub mod reading;
pub mod round_trip;
pub mod text;
pub mod uri;

pub use error::Error;
pub use owned::UriOwned;
pub use percent::percent_decode;
pub use uri::Uri;
