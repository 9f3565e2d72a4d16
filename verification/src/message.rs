use vstd::prelude::*;
use vstd::string::*;

verus! {

/// The two kinds of entry a user files away.
#[derive(Debug, Clone, Copy, PartialEq, Eq, Structural)]
pub enum FileType {
    Folder,
    Photo,
}

impl FileType {
    /// The word under which this kind appears in messages.
    pub open spec fn label_spec(&self) -> Seq<char> {
        match self {
            FileType::Folder => "フォルダー"@,
            FileType::Photo => "写真"@,
        }
    }

    /// The word under which this kind appears in messages.
    pub fn label(&self) -> (r: String)
        ensures
            r@ == self.label_spec(),
    {
        match self {
            FileType::Folder => String::from_str("フォルダー"),
            FileType::Photo => String::from_str("写真"),
        }
    }
}

/// What went well, as the caller is told.
#[derive(Debug, Clone, Copy, PartialEq, Eq, Structural)]
pub enum AppSuccess {
    CreatedFolder,
    Updated(FileType),
    Deleted(FileType),
    UploadedPhoto,
}

impl AppSuccess {
    /// The text of the message, character by character.
    pub open spec fn message_spec(&self) -> Seq<char> {
        match self {
            AppSuccess::CreatedFolder => "Folder was created."@,
            AppSuccess::Updated(file_type) => file_type.label_spec() + "の更新が成功しました。"@,
            AppSuccess::Deleted(file_type) => file_type.label_spec() + "の削除が成功しました。"@,
            AppSuccess::UploadedPhoto => "写真のアップロードが成功しました。"@,
        }
    }

    pub fn message(&self) -> (r: String)
        ensures
            r@ == self.message_spec(),
    {
        match self {
            AppSuccess::CreatedFolder => String::from_str("Folder was created."),
            AppSuccess::Updated(file_type) => file_type.label().concat("の更新が成功しました。"),
            AppSuccess::Deleted(file_type) => file_type.label().concat("の削除が成功しました。"),
            AppSuccess::UploadedPhoto => String::from_str("写真のアップロードが成功しました。"),
        }
    }
}

/// What went wrong on the server's side, as the caller is told.
#[derive(Debug, Clone, Copy, PartialEq, Eq, Structural)]
pub enum AppError {
    CreateFolderFailed,
    UpdateFolderFailed,
    DeleteFailed(FileType),
    UploadFailed(FileType),
    InternalServerError,
    TransactionStartFailed,
}

impl AppError {
    /// The text of the message, character by character.
    pub open spec fn message_spec(&self) -> Seq<char> {
        match self {
            AppError::CreateFolderFailed => "Failed to create folder."@,
            AppError::UpdateFolderFailed => "Failed to update folder."@,
            AppError::DeleteFailed(file_type) => "Failed to delete "@ + file_type.label_spec() + "."@,
            AppError::UploadFailed(file_type) => "Failed to upload "@ + file_type.label_spec() + "."@,
            AppError::InternalServerError => "Internal Server Error"@,
            AppError::TransactionStartFailed => "Failed to start transaction"@,
        }
    }

    pub fn message(&self) -> (r: String)
        ensures
            r@ == self.message_spec(),
    {
        match self {
            AppError::CreateFolderFailed => String::from_str("Failed to create folder."),
            AppError::UpdateFolderFailed => String::from_str("Failed to update folder."),
            AppError::DeleteFailed(file_type) => {
                let label = file_type.label();
                String::from_str("Failed to delete ").concat(label.as_str()).concat(".")
            },
            AppError::UploadFailed(file_type) => {
                let label = file_type.label();
                String::from_str("Failed to upload ").concat(label.as_str()).concat(".")
            },
            AppError::InternalServerError => String::from_str("Internal Server Error"),
            AppError::TransactionStartFailed => String::from_str("Failed to start transaction"),
        }
    }
}

} // verus!
