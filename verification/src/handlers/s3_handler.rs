use vstd::prelude::*;
use vstd::string::*;

verus! {

/// The request for a place to upload an image to.
#[derive(Debug, PartialEq, Eq)]
pub struct PresignRequest {
    pub filename: String,
}

/// Where an image is to be uploaded: the key of the object, the address
/// under which it will be read, and for how many seconds the upload is allowed.
#[derive(Debug, PartialEq, Eq)]
pub struct PresignPlan {
    pub key: String,
    pub public_url: String,
    pub expires_in_secs: u64,
}

/// What the blob store answered when it was asked to remove an object.
#[derive(Debug, PartialEq, Eq)]
pub enum BlobDeleteOutcome {
    /// The object is gone.
    Deleted,
    /// The service refused, with its error code and a description.
    ServiceError { code: Option<String>, detail: String },
    /// The request did not get through, with a description.
    Failed { detail: String },
}

/// For how long an upload is allowed, in seconds.
pub const UPLOAD_SECONDS: u64 = 300;

/// The place behind the last slash among the first `n` characters, or 0.
pub open spec fn after_last_slash(s: Seq<char>, n: int) -> int
    decreases n,
{
    if n <= 0 {
        0
    } else if s[n - 1] == '/' {
        n
    } else {
        after_last_slash(s, n - 1)
    }
}

/// The key of the object behind an image path: what follows the last slash,
/// or the whole path where it has none.
pub open spec fn key_text(image_url: Seq<char>) -> Seq<char> {
    image_url.subrange(after_last_slash(image_url, image_url.len() as int), image_url.len() as int)
}

/// The key of the object behind an image path: what follows the last slash,
/// or the whole path where it has none.
pub fn blob_key(image_url: &str) -> (r: String)
    ensures
        r@ == key_text(image_url@),
{
    let n = image_url.unicode_len();
    let mut k: usize = n;
    while k > 0 && image_url.get_char(k - 1) != '/'
        invariant
            n == image_url@.len(),
            k <= n,
            after_last_slash(image_url@, n as int) == after_last_slash(image_url@, k as int),
        decreases k,
    {
        k -= 1;
    }
    image_url.substring_char(k, n).to_owned()
}

/// The name under which an upload is stored: a fresh prefix, a hyphen and
/// the file's name.
pub open spec fn object_name(prefix: Seq<char>, filename: Seq<char>) -> Seq<char> {
    prefix + "-"@ + filename
}

/// The address under which a stored object is read.
pub open spec fn public_url_text(bucket: Seq<char>, region: Seq<char>, key: Seq<char>) -> Seq<char> {
    "https://"@ + bucket + ".s3."@ + region + ".amazonaws.com/"@ + key
}

/// A fresh identifier in its usual writing, from `uuid::Uuid::new_v4` and the
/// `Display` of `uuid::Uuid`. It is drawn at random, so nothing is claimed
/// of it but its length: 32 hexadecimal digits and 4 hyphens.
#[verifier::external_body]
fn fresh_uuid() -> (r: String)
    ensures
        r@.len() == 36,
{
    uuid::Uuid::new_v4().to_string()
}

/// Where the file of `req` is to be uploaded, given the prefix that makes
/// its name unique.
pub fn presign_plan(prefix: &str, req: &PresignRequest, bucket: &str, region: &str) -> (r:
    PresignPlan)
    ensures
        r.key@ == object_name(prefix@, req.filename@),
        r.public_url@ == public_url_text(bucket@, region@, r.key@),
        r.expires_in_secs == UPLOAD_SECONDS,
{
    let key = String::from_str(prefix).concat("-").concat(req.filename.as_str());
    let public_url = String::from_str("https://").concat(bucket).concat(".s3.").concat(
        region,
    ).concat(".amazonaws.com/").concat(key.as_str());
    PresignPlan { key, public_url, expires_in_secs: UPLOAD_SECONDS }
}

/// Where the file of `req` is to be uploaded: under a name that no other
/// upload has, made of a fresh identifier, a hyphen and the file's name.
pub fn generate_presigned_url(req: &PresignRequest, bucket: &str, region: &str) -> (r: PresignPlan)
    ensures
        exists|prefix: Seq<char>|
            prefix.len() == 36 && r.key@ == #[trigger] object_name(prefix, req.filename@),
        r.public_url@ == public_url_text(bucket@, region@, r.key@),
        r.expires_in_secs == UPLOAD_SECONDS,
{
    let prefix = fresh_uuid();
    let plan = presign_plan(prefix.as_str(), req, bucket, region);
    assert(plan.key@ == object_name(prefix@, req.filename@));
    plan
}

/// Whether an answer of the blob store says that the object was not there.
pub open spec fn is_missing_key(outcome: BlobDeleteOutcome) -> bool {
    match outcome {
        BlobDeleteOutcome::ServiceError { code: Some(code), .. } => code@ == "NoSuchKey"@,
        _ => false,
    }
}

/// What an answer of the blob store says went wrong.
pub open spec fn outcome_detail(outcome: BlobDeleteOutcome) -> Seq<char> {
    match outcome {
        BlobDeleteOutcome::Deleted => Seq::empty(),
        BlobDeleteOutcome::ServiceError { detail, .. } => detail@,
        BlobDeleteOutcome::Failed { detail } => detail@,
    }
}

/// Whether the blob store's answer counts as done: the object is gone, or
/// it was not there in the first place.
pub open spec fn is_settled(outcome: BlobDeleteOutcome) -> bool {
    outcome is Deleted || is_missing_key(outcome)
}

/// The report of an object that could not be removed.
pub open spec fn failure_text(key: Seq<char>, detail: Seq<char>) -> Seq<char> {
    "S3削除失敗: "@ + key + " ("@ + detail + ")"@
}

/// Judges the blob store's answer to the removal of the object behind
/// `image_url`. An object that was not there counts as removed; any other
/// failure is reported with the object's key and the store's description.
pub fn delete_image_from_s3(image_url: &str, outcome: &BlobDeleteOutcome) -> (r: Result<(), String>)
    ensures
        is_settled(*outcome) ==> r is Ok,
        !is_settled(*outcome) ==> r is Err && r->Err_0@ == failure_text(
            key_text(image_url@),
            outcome_detail(*outcome),
        ),
{
    let detail = match outcome {
        BlobDeleteOutcome::Deleted => {
            return Ok(());
        },
        BlobDeleteOutcome::ServiceError { code, detail } => {
            match code {
                Some(code) => {
                    let missing = String::from_str("NoSuchKey");
                    if *code == missing {
                        return Ok(());
                    }
                },
                None => {},
            }
            detail
        },
        BlobDeleteOutcome::Failed { detail } => detail,
    };
    let key = blob_key(image_url);
    Err(
        String::from_str("S3削除失敗: ").concat(key.as_str()).concat(" (").concat(
            detail.as_str(),
        ).concat(")"),
    )
}

/// Whether the removal of the image at place `i` was tried and failed.
pub open spec fn has_failed(paths: Seq<String>, outcomes: Seq<BlobDeleteOutcome>, i: int) -> bool {
    0 <= i < paths.len() && i < outcomes.len() && !is_settled(outcomes[i])
}

/// The reports of the images among the first `n` that could not be removed,
/// where `outcomes` holds the blob store's answers in the order of `paths`.
pub open spec fn blob_failures(paths: Seq<String>, outcomes: Seq<BlobDeleteOutcome>, n: int) -> Seq<
    Seq<char>,
>
    decreases n,
{
    if n <= 0 {
        Seq::empty()
    } else {
        let rest = blob_failures(paths, outcomes, n - 1);
        if has_failed(paths, outcomes, n - 1) {
            rest.push(failure_text(key_text(paths[n - 1]@), outcome_detail(outcomes[n - 1])))
        } else {
            rest
        }
    }
}

/// The report of the first image among the first `n` that could not be removed.
pub open spec fn first_blob_failure(paths: Seq<String>, outcomes: Seq<BlobDeleteOutcome>, n: int) -> Option<
    Seq<char>,
>
    decreases n,
{
    if n <= 0 {
        None
    } else {
        match first_blob_failure(paths, outcomes, n - 1) {
            Some(report) => Some(report),
            None => if has_failed(paths, outcomes, n - 1) {
                Some(failure_text(key_text(paths[n - 1]@), outcome_detail(outcomes[n - 1])))
            } else {
                None
            },
        }
    }
}

proof fn lemma_first_blob_failure_stays(
    paths: Seq<String>,
    outcomes: Seq<BlobDeleteOutcome>,
    n: int,
    m: int,
)
    requires
        0 <= n <= m,
        first_blob_failure(paths, outcomes, n) is Some,
    ensures
        first_blob_failure(paths, outcomes, m) == first_blob_failure(paths, outcomes, n),
    decreases m - n,
{
    if n < m {
        lemma_first_blob_failure_stays(paths, outcomes, n, m - 1);
    }
}

/// The reports of all the images that could not be removed, in the order
/// of `paths`; `outcomes` holds the blob store's answers in that order. An
/// image without an answer was not tried and is not reported.
pub fn collect_blob_errors(paths: &Vec<String>, outcomes: &Vec<BlobDeleteOutcome>) -> (r: Vec<
    String,
>)
    ensures
        r.len() == blob_failures(paths@, outcomes@, paths.len() as int).len(),
        forall|k: int|
            0 <= k < r.len() ==> (#[trigger] r[k])@ == blob_failures(
                paths@,
                outcomes@,
                paths.len() as int,
            )[k],
{
    let mut out: Vec<String> = Vec::new();
    let mut i: usize = 0;
    while i < paths.len()
        invariant
            i <= paths.len(),
            out.len() == blob_failures(paths@, outcomes@, i as int).len(),
            forall|k: int|
                0 <= k < out.len() ==> (#[trigger] out[k])@ == blob_failures(
                    paths@,
                    outcomes@,
                    i as int,
                )[k],
        decreases paths.len() - i,
    {
        if i < outcomes.len() {
            match delete_image_from_s3(paths[i].as_str(), &outcomes[i]) {
                Ok(_) => {},
                Err(report) => {
                    out.push(report);
                },
            }
        }
        i += 1;
    }
    out
}

/// The report of the first image that could not be removed, where there is
/// one; `outcomes` holds the blob store's answers in the order of `paths`.
pub fn find_blob_failure(paths: &Vec<String>, outcomes: &Vec<BlobDeleteOutcome>) -> (r: Option<
    String,
>)
    ensures
        match first_blob_failure(paths@, outcomes@, paths.len() as int) {
            Some(report) => r is Some && r->Some_0@ == report,
            None => r is None,
        },
{
    let mut i: usize = 0;
    while i < paths.len()
        invariant
            i <= paths.len(),
            first_blob_failure(paths@, outcomes@, i as int) is None,
        decreases paths.len() - i,
    {
        if i < outcomes.len() {
            match delete_image_from_s3(paths[i].as_str(), &outcomes[i]) {
                Ok(_) => {},
                Err(report) => {
                    proof {
                        lemma_first_blob_failure_stays(
                            paths@,
                            outcomes@,
                            i + 1,
                            paths.len() as int,
                        );
                    }
                    return Some(report);
                },
            }
        }
        i += 1;
    }
    None
}

/// What is to be done next while images are removed one after the other.
#[derive(Debug, PartialEq, Eq)]
pub enum BlobStep {
    /// Ask the blob store to remove the image at this path.
    Remove(String),
    /// Ask for nothing more: all is done, or the removal reported here failed.
    Stop(Option<String>),
}

/// What is to be done next, given the blob store's answers so far, where
/// the images at `paths` are to be removed in their order and up to the
/// first failure: nothing more after a failure, else the next image, and
/// nothing more when every image has its answer.
pub fn next_blob_step(paths: &Vec<String>, outcomes: &Vec<BlobDeleteOutcome>) -> (r: BlobStep)
    ensures
        match first_blob_failure(paths@, outcomes@, paths.len() as int) {
            Some(report) => r matches BlobStep::Stop(Some(text)) && text@ == report,
            None => if outcomes.len() < paths.len() {
                r == BlobStep::Remove(paths[outcomes.len() as int])
            } else {
                r == BlobStep::Stop(None)
            },
        },
{
    match find_blob_failure(paths, outcomes) {
        Some(report) => BlobStep::Stop(Some(report)),
        None => if outcomes.len() < paths.len() {
            BlobStep::Remove(paths[outcomes.len()].clone())
        } else {
            BlobStep::Stop(None)
        },
    }
}

} // verus!
