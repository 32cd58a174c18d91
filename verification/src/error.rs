//! The error taxonomy every fallible operation of the crate reports.

use vstd::prelude::*;

verus! {

use vstd::string::StringExecFns;

/// A typed failure reason, one variant per failure class.
#[derive(Debug, Clone)]
pub enum AppError {
    /// A filesystem read, write or permission failure, reported by the caller.
    Io(String),
    /// The persisted catalog document could not be parsed.
    Json(String),
    /// A remote audio fetch failed; the asset gets no catalog entry.
    Download(String),
    /// A network-level failure distinct from a per-asset download failure.
    Network(String),
    /// The catalog or its settings are unusable.
    Config(String),
    /// A file that was expected on disk is missing.
    NotFound(String),
    /// A cover URL with no extractable basename segment.
    InvalidUrl(String),
    /// A relative path that would escape the owned asset root.
    InvalidPath(String),
    /// No playlist carries the requested identifier.
    PlaylistNotFound(String),
    /// No asset carries the requested identifier.
    AudioNotFound(String),
    /// An audio format or platform tag that the cache does not know.
    InvalidFormat(String),
    PermissionDenied(String),
    /// Reserved for callers that enforce a hard cap before writing.
    StorageQuotaExceeded,
    Cancelled,
    Unknown(String),
}

impl AppError {
    /// The failure reason as user-visible text: a fixed label per variant,
    /// followed by the detail the variant carries.
    pub fn message(&self) -> (r: String)
        ensures
            r@ == self.label() + self.detail(),
    {
        let label = self.label_str();
        match self {
            AppError::Io(m)
            | AppError::Json(m)
            | AppError::Download(m)
            | AppError::Network(m)
            | AppError::Config(m)
            | AppError::NotFound(m)
            | AppError::InvalidUrl(m)
            | AppError::InvalidPath(m)
            | AppError::PlaylistNotFound(m)
            | AppError::AudioNotFound(m)
            | AppError::InvalidFormat(m)
            | AppError::PermissionDenied(m)
            | AppError::Unknown(m) => label.concat(m.as_str()),
            AppError::StorageQuotaExceeded | AppError::Cancelled => label,
        }
    }

    /// The fixed label of each variant.
    pub closed spec fn label(&self) -> Seq<char> {
        match self {
            AppError::Io(_) => "IO error: "@,
            AppError::Json(_) => "JSON error: "@,
            AppError::Download(_) => "Download error: "@,
            AppError::Network(_) => "Network error: "@,
            AppError::Config(_) => "Config error: "@,
            AppError::NotFound(_) => "File not found: "@,
            AppError::InvalidUrl(_) => "Invalid URL: "@,
            AppError::InvalidPath(_) => "Invalid path: "@,
            AppError::PlaylistNotFound(_) => "Playlist not found: "@,
            AppError::AudioNotFound(_) => "Audio not found: "@,
            AppError::InvalidFormat(_) => "Invalid audio format: "@,
            AppError::PermissionDenied(_) => "Permission denied: "@,
            AppError::StorageQuotaExceeded => "Storage quota exceeded"@,
            AppError::Cancelled => "Operation cancelled"@,
            AppError::Unknown(_) => "Unknown error: "@,
        }
    }

    /// The detail text the variant carries, empty where it carries none.
    pub closed spec fn detail(&self) -> Seq<char> {
        match self {
            AppError::Io(m)
            | AppError::Json(m)
            | AppError::Download(m)
            | AppError::Network(m)
            | AppError::Config(m)
            | AppError::NotFound(m)
            | AppError::InvalidUrl(m)
            | AppError::InvalidPath(m)
            | AppError::PlaylistNotFound(m)
            | AppError::AudioNotFound(m)
            | AppError::InvalidFormat(m)
            | AppError::PermissionDenied(m)
            | AppError::Unknown(m) => m@,
            AppError::StorageQuotaExceeded | AppError::Cancelled => Seq::<char>::empty(),
        }
    }

    fn label_str(&self) -> (r: String)
        ensures
            r@ == self.label(),
    {
        match self {
            AppError::Io(_) => String::from_str("IO error: "),
            AppError::Json(_) => String::from_str("JSON error: "),
            AppError::Download(_) => String::from_str("Download error: "),
            AppError::Network(_) => String::from_str("Network error: "),
            AppError::Config(_) => String::from_str("Config error: "),
            AppError::NotFound(_) => String::from_str("File not found: "),
            AppError::InvalidUrl(_) => String::from_str("Invalid URL: "),
            AppError::InvalidPath(_) => String::from_str("Invalid path: "),
            AppError::PlaylistNotFound(_) => String::from_str("Playlist not found: "),
            AppError::AudioNotFound(_) => String::from_str("Audio not found: "),
            AppError::InvalidFormat(_) => String::from_str("Invalid audio format: "),
            AppError::PermissionDenied(_) => String::from_str("Permission denied: "),
            AppError::StorageQuotaExceeded => String::from_str("Storage quota exceeded"),
            AppError::Cancelled => String::from_str("Operation cancelled"),
            AppError::Unknown(_) => String::from_str("Unknown error: "),
        }
    }
}

} // verus!
