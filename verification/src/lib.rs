//! Wi-Fi credential extraction and reconciliation.
//!
//! The library reads the credentials that a device has stored, from the text
//! of its XML configuration store or of its supplicant configuration, merges
//! credential lists into one list with one record for each network, writes
//! such a list as JSON text and reads it back, and decides the steps by which
//! the stored credentials are read through a privileged shell and by which a
//! list is added to the live system.
//!
//! Text is modelled as a sequence of characters, and every contract is stated
//! over such sequences and over the values of the records.

pub mod cred;
pub mod error;
pub mod import;
pub mod importer;
pub mod json;
pub mod laws;
pub mod lexer;
pub mod parsers;
pub mod reconcile;
pub mod roundtrip;
pub mod session;
pub mod shapes;
pub mod shell;
pub mod source;
pub mod text;

pub use cred::WifiCred;
pub use error::ErrorKind;
pub use import::parse_imported_json;
pub use importer::bulk_import;
pub use json::build_json;
pub use parsers::{parse_wifi_configstore_xml, parse_wpa_supplicant};
pub use reconcile::merge;
pub use source::try_read_with_su;
