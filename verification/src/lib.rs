//! Toll-road price-grid ingestion and matrix generation.
//!
//! Price lists arrive in three incompatible tabular formats (flat
//! column files, entry-by-exit grids, and symmetric triangles).  The
//! loaders resolve them into one canonical table keyed by (entry
//! station, exit station, vehicle category) under a recency rule, with
//! per-record failures collected in audits rather than aborting the
//! load.  A matrix builder then projects the finished table onto a
//! toll's ordered section list.  Station names are canonicalized by a
//! fixed text transform plus an alias table; monetary amounts are kept
//! exact in whole units and hundredths.

pub mod audit;
pub mod builder;
pub mod category;
pub mod currency;
pub mod flat;
pub mod loader;
pub mod matrix_loader;
pub mod normalize;
pub mod service;
pub mod sync;
pub mod table;
pub mod text;
pub mod toll;
pub mod triangle_loader;
pub mod users;

pub use audit::{PriceLoadAudit, PriceLoadError};
pub use builder::Audit;
pub use category::Category;
pub use currency::{Currency, ParseError};
pub use flat::FlatFileName;
pub use loader::{PriceLoader, SourceFile};
pub use normalize::NameNormalizer;
pub use service::PriceService;
pub use sync::{Status, SyncData};
pub use table::{Price, PriceKey, PriceTable};
pub use toll::{Matrix, Section, Toll, TollFile};
pub use users::User;
