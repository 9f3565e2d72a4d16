use photo_archive::message::{AppError, AppSuccess, FileType};

#[test]
fn created_folder_message() {
    assert_eq!(AppSuccess::CreatedFolder.message(), "Folder was created.");
}

#[test]
fn updated_and_deleted_messages_name_the_kind() {
    assert_eq!(AppSuccess::Updated(FileType::Folder).message(), "フォルダーの更新が成功しました。");
    assert_eq!(AppSuccess::Updated(FileType::Photo).message(), "写真の更新が成功しました。");
    assert_eq!(AppSuccess::Deleted(FileType::Folder).message(), "フォルダーの削除が成功しました。");
    assert_eq!(AppSuccess::Deleted(FileType::Photo).message(), "写真の削除が成功しました。");
    assert_eq!(AppSuccess::UploadedPhoto.message(), "写真のアップロードが成功しました。");
}

#[test]
fn error_messages() {
    assert_eq!(AppError::CreateFolderFailed.message(), "Failed to create folder.");
    assert_eq!(AppError::UpdateFolderFailed.message(), "Failed to update folder.");
    assert_eq!(AppError::DeleteFailed(FileType::Photo).message(), "Failed to delete 写真.");
    assert_eq!(AppError::UploadFailed(FileType::Folder).message(), "Failed to upload フォルダー.");
    assert_eq!(AppError::InternalServerError.message(), "Internal Server Error");
    assert_eq!(AppError::TransactionStartFailed.message(), "Failed to start transaction");
}

#[test]
fn file_type_labels() {
    assert_eq!(FileType::Folder.label(), "フォルダー");
    assert_eq!(FileType::Photo.label(), "写真");
}
