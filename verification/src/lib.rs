//! A local, content-addressed cache of downloadable media assets.
//!
//! The crate tracks cached audio files (and their cover art) in a single
//! persisted catalog, computes deterministic on-disk addresses for every
//! asset, plans bounded-concurrency downloads, and enforces a storage
//! budget through a least-recently-played eviction policy.
//!
//! All decision logic lives here and is verified; reading and writing the
//! actual files, and fetching bytes from remote sources, is left to the
//! embedding application, which drives the state machines and planners in
//! this crate with the outcomes of that outside work.

pub mod audio;
pub mod catalog;
pub mod codec;
pub mod downloader;
pub mod error;
pub mod importer;
pub mod metadata;
pub mod paths;
pub mod playlist;
pub mod playlist_manager;
pub mod search;
pub mod storage;
pub mod text;

pub use audio::Audio;
pub use audio::AudioFormat;
pub use audio::LocalAudio;
pub use catalog::AppSettings;
pub use catalog::Config;
pub use downloader::Downloader;
pub use error::AppError;
pub use playlist::LocalPlaylist;
pub use playlist::Playlist;
pub use playlist_manager::PlaylistManager;
pub use search::SearchQuery;
pub use search::SearchResult;
pub use search::SearchService;
pub use storage::CleanupResult;
pub use storage::Storage;
pub use storage::StorageUsage;
