//! The command surface as plain data: what a parsed command line means,
//! free of any parsing concern. The binary around the library maps its
//! argument parser's output onto these shapes and dispatches on them.
use vstd::prelude::*;

verus! {

/// Top-level command.
#[derive(PartialEq, Eq, Debug, Clone)]
pub struct Cli {
    pub command: CliSubCommands,
    /// Whether to output in json.
    pub json: bool,
}

/// The command groups.
#[derive(PartialEq, Eq, Debug, Clone)]
pub enum CliSubCommands {
    File(FileCommand),
    Album(AlbumCommand),
    Config(ConfigCommand),
}

/// Controlling the stored credentials.
#[derive(PartialEq, Eq, Debug, Clone)]
pub struct ConfigCommand {
    pub command: ConfigSubCommands,
}

/// The credential operations.
#[derive(PartialEq, Eq, Debug, Clone)]
pub enum ConfigSubCommands {
    Save(SaveConfig),
    Delete(DeleteConfig),
}

/// Deletes both the stored username and the stored password.
#[derive(PartialEq, Eq, Debug, Clone)]
pub struct DeleteConfig {}

/// Saves the account username and password.
#[derive(PartialEq, Eq, Debug, Clone)]
pub struct SaveConfig {
    /// The account user name.
    pub username: String,
    /// The password.
    pub password: String,
}

/// Controlling files.
#[derive(PartialEq, Eq, Debug, Clone)]
pub struct FileCommand {
    pub command: FileSubCommands,
}

/// The file operations.
#[derive(PartialEq, Eq, Debug, Clone)]
pub enum FileSubCommands {
    Upload(FileUpload),
    List(FileList),
}

/// Lists the account's uploaded files.
#[derive(PartialEq, Eq, Debug, Clone)]
pub struct FileList {}

/// Uploads files.
#[derive(PartialEq, Eq, Debug, Clone)]
pub struct FileUpload {
    /// The local file paths to upload.
    pub paths: Vec<String>,
}

/// Controlling an album.
#[derive(PartialEq, Eq, Debug, Clone)]
pub struct AlbumCommand {
    pub command: AlbumSubCommands,
}

/// The album operations.
#[derive(PartialEq, Eq, Debug, Clone)]
pub enum AlbumSubCommands {
    List(AlbumList),
    Add(AddFiles),
    Upload(UploadFiles),
}

/// Adds files, by short id or URL, to an album.
#[derive(PartialEq, Eq, Debug, Clone)]
pub struct AddFiles {
    /// The album's short code, the last part of its URL.
    pub album: String,
    /// The files to add to the album.
    pub files: Vec<String>,
}

/// Uploads local files and adds them to an album.
#[derive(PartialEq, Eq, Debug, Clone)]
pub struct UploadFiles {
    /// The album's short code, the last part of its URL.
    pub album: String,
    /// The local files to upload into the album.
    pub files: Vec<String>,
}

/// Lists the account's albums, or, with an album given, that album's files.
#[derive(PartialEq, Eq, Debug, Clone)]
pub struct AlbumList {
    /// The album's short code, the last part of its URL.
    pub album: Option<String>,
}

} // verus!
