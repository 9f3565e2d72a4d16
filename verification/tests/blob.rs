use photo_archive::handlers::s3_handler::{
    blob_key, collect_blob_errors, delete_image_from_s3, find_blob_failure,
    generate_presigned_url, next_blob_step, presign_plan, BlobDeleteOutcome, BlobStep,
    PresignRequest, UPLOAD_SECONDS,
};

fn service_error(code: Option<&str>, detail: &str) -> BlobDeleteOutcome {
    BlobDeleteOutcome::ServiceError { code: code.map(|c| c.to_string()), detail: detail.to_string() }
}

#[test]
fn the_key_is_what_follows_the_last_slash() {
    assert_eq!(blob_key("https://bucket.s3.us-west-2.amazonaws.com/abc-1.jpg"), "abc-1.jpg");
    assert_eq!(blob_key("/images/1.jpg"), "1.jpg");
    assert_eq!(blob_key("plain.jpg"), "plain.jpg");
    assert_eq!(blob_key("dir/"), "");
    assert_eq!(blob_key(""), "");
    assert_eq!(blob_key("写真/海.jpg"), "海.jpg");
}

#[test]
fn a_missing_object_counts_as_removed() {
    assert_eq!(delete_image_from_s3("/images/1.jpg", &BlobDeleteOutcome::Deleted), Ok(()));
    assert_eq!(
        delete_image_from_s3("/images/1.jpg", &service_error(Some("NoSuchKey"), "gone")),
        Ok(())
    );
}

#[test]
fn any_other_failure_is_reported_with_the_key() {
    assert_eq!(
        delete_image_from_s3("/images/1.jpg", &service_error(Some("AccessDenied"), "denied")),
        Err("S3削除失敗: 1.jpg (denied)".to_string())
    );
    assert_eq!(
        delete_image_from_s3("/images/1.jpg", &service_error(None, "no code")),
        Err("S3削除失敗: 1.jpg (no code)".to_string())
    );
    assert_eq!(
        delete_image_from_s3("/images/1.jpg", &service_error(Some("nosuchkey"), "case")),
        Err("S3削除失敗: 1.jpg (case)".to_string())
    );
    assert_eq!(
        delete_image_from_s3(
            "a/b/2.png",
            &BlobDeleteOutcome::Failed { detail: "timeout".to_string() }
        ),
        Err("S3削除失敗: 2.png (timeout)".to_string())
    );
}

#[test]
fn failures_are_collected_in_order() {
    let paths = vec!["/i/1.jpg".to_string(), "/i/2.jpg".to_string(), "/i/3.jpg".to_string()];
    let outcomes = vec![
        BlobDeleteOutcome::Failed { detail: "net".to_string() },
        service_error(Some("NoSuchKey"), "gone"),
        service_error(Some("SlowDown"), "throttled"),
    ];
    assert_eq!(
        collect_blob_errors(&paths, &outcomes),
        vec!["S3削除失敗: 1.jpg (net)".to_string(), "S3削除失敗: 3.jpg (throttled)".to_string()]
    );
    assert_eq!(find_blob_failure(&paths, &outcomes), Some("S3削除失敗: 1.jpg (net)".to_string()));
    let fine = vec![BlobDeleteOutcome::Deleted, BlobDeleteOutcome::Deleted];
    assert!(collect_blob_errors(&paths, &fine).is_empty());
    assert_eq!(find_blob_failure(&paths, &fine), None);
    assert!(collect_blob_errors(&vec![], &outcomes).is_empty());
}

#[test]
fn an_upload_is_planned_under_prefix_hyphen_name() {
    let req = PresignRequest { filename: "cat.png".to_string() };
    let plan = presign_plan("0123", &req, "my-bucket", "us-west-2");
    assert_eq!(plan.key, "0123-cat.png");
    assert_eq!(plan.public_url, "https://my-bucket.s3.us-west-2.amazonaws.com/0123-cat.png");
    assert_eq!(plan.expires_in_secs, 300);
    assert_eq!(UPLOAD_SECONDS, 300);
}

#[test]
fn each_upload_gets_a_fresh_name() {
    let req = PresignRequest { filename: "cat.png".to_string() };
    let one = generate_presigned_url(&req, "b", "r");
    let two = generate_presigned_url(&req, "b", "r");
    assert_ne!(one.key, two.key);
    assert_eq!(one.key.chars().count(), 36 + 1 + 7);
    assert!(one.key.ends_with("-cat.png"));
    assert_ne!(one.key, "cat.png");
    let prefix = &one.key[..36];
    assert!(prefix.chars().all(|c| c == '-' || c.is_ascii_hexdigit()));
    assert_eq!(prefix.chars().filter(|c| *c == '-').count(), 4);
    assert_eq!(one.public_url, format!("https://b.s3.r.amazonaws.com/{}", one.key));
    assert_eq!(one.expires_in_secs, 300);
}

#[test]
fn images_are_removed_one_by_one_up_to_the_first_failure() {
    let paths = vec!["/i/1.jpg".to_string(), "/i/2.jpg".to_string(), "/i/3.jpg".to_string()];
    let mut outcomes = Vec::new();
    assert_eq!(next_blob_step(&paths, &outcomes), BlobStep::Remove("/i/1.jpg".to_string()));
    outcomes.push(BlobDeleteOutcome::Deleted);
    assert_eq!(next_blob_step(&paths, &outcomes), BlobStep::Remove("/i/2.jpg".to_string()));
    outcomes.push(service_error(Some("NoSuchKey"), "gone"));
    assert_eq!(next_blob_step(&paths, &outcomes), BlobStep::Remove("/i/3.jpg".to_string()));
    outcomes.push(BlobDeleteOutcome::Deleted);
    assert_eq!(next_blob_step(&paths, &outcomes), BlobStep::Stop(None));

    let failed = vec![BlobDeleteOutcome::Deleted, service_error(Some("SlowDown"), "throttled")];
    assert_eq!(
        next_blob_step(&paths, &failed),
        BlobStep::Stop(Some("S3削除失敗: 2.jpg (throttled)".to_string()))
    );
    assert_eq!(next_blob_step(&vec![], &vec![]), BlobStep::Stop(None));
}
