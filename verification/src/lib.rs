//! Card catalogue, print list and published-feed validation for proxy printing.

pub mod assoc;
pub mod client;
pub mod laws;
pub mod library;
pub mod print_config;
pub mod print_file;
pub mod proxy_consumer;
pub mod published;
pub mod runtime_library;
pub mod scan;
pub mod text;

pub use library::{
    ActiveState, AlternateFaceMetadata, CardFacePrintingId, CardId, CardImage, CardMetadata, FilledCardSlot,
    InsertId, InsertMetadata, Library, LocalImageOverride, MultiLibrary, PrintingMetadata, PublishedAssetIndex,
    Title, resolve_image_url,
};
pub use print_config::{BleedMode, CutIndicator, PrintConfig, PrintSize};
pub use print_file::PrintFile;
pub use published::published_asset_index;

use vstd::prelude::*;

verus! {

} // verus!
