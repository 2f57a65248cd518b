//! The requests to the object storage, as arguments of the command line tool `aws`,
//! and what their answers and failures say.

use crate::archive_run::{RemoteObject, RemoteView};
use crate::outside::{
    bytes_text, fields_view, json_fields, read_json_fields, utf8_lossy,
};
use crate::text::{
    concat2, concat3, contains, occurs_at, occurs_in, opt_text, split_whitespace, texts, trim,
    trimmed, words_of,
};
use vstd::prelude::*;

verus! {

/// Where objects are stored, and as whom.
#[derive(Debug)]
pub struct Storage {
    pub endpoint: String,
    pub bucket: String,
    pub profile: String,
}

/// The arguments by which the head of an object is asked for.
pub open spec fn head_words(storage: Storage, key: Seq<char>) -> Seq<Seq<char>> {
    seq![
        "s3api"@,
        "head-object"@,
        "--bucket"@,
        storage.bucket@,
        "--key"@,
        key,
        "--endpoint-url"@,
        storage.endpoint@,
        "--profile"@,
        storage.profile@,
        "--output"@,
        "json"@,
    ]
}

/// The arguments by which a file is uploaded, with its checksum as metadata.
pub open spec fn upload_words(
    storage: Storage,
    path: Seq<char>,
    key: Seq<char>,
    sha256: Seq<char>,
) -> Seq<Seq<char>> {
    seq![
        "s3"@,
        "cp"@,
        path,
        "s3://"@ + storage.bucket@ + "/"@ + key,
        "--metadata"@,
        "sha256="@ + sha256,
        "--endpoint-url"@,
        storage.endpoint@,
        "--profile"@,
        storage.profile@,
        "--only-show-errors"@,
    ]
}

impl Storage {
    /// The arguments by which the head of an object is asked for.
    pub fn head_args(&self, key: &str) -> (r: Vec<String>)
        ensures
            texts(r@) == head_words(*self, key@),
    {
        let mut args: Vec<String> = Vec::new();
        args.push("s3api".to_owned());
        args.push("head-object".to_owned());
        args.push("--bucket".to_owned());
        args.push(self.bucket.clone());
        args.push("--key".to_owned());
        args.push(key.to_owned());
        args.push("--endpoint-url".to_owned());
        args.push(self.endpoint.clone());
        args.push("--profile".to_owned());
        args.push(self.profile.clone());
        args.push("--output".to_owned());
        args.push("json".to_owned());
        assert(texts(args@) =~= head_words(*self, key@));
        args
    }

    /// The arguments by which a file is uploaded.
    pub fn upload_args(&self, path: &str, key: &str, sha256: &str) -> (r: Vec<String>)
        ensures
            texts(r@) == upload_words(*self, path@, key@, sha256@),
    {
        let mut url = concat3("s3://", self.bucket.as_str(), "/");
        url.append(key);
        let mut args: Vec<String> = Vec::new();
        args.push("s3".to_owned());
        args.push("cp".to_owned());
        args.push(path.to_owned());
        args.push(url);
        args.push("--metadata".to_owned());
        args.push(concat2("sha256=", sha256));
        args.push("--endpoint-url".to_owned());
        args.push(self.endpoint.clone());
        args.push("--profile".to_owned());
        args.push(self.profile.clone());
        args.push("--only-show-errors".to_owned());
        assert(texts(args@) =~= upload_words(*self, path@, key@, sha256@));
        args
    }
}

/// The message says that there is no such object.
pub open spec fn says_missing(message: Seq<char>) -> bool {
    occurs_in("(404) when calling the HeadObject operation"@, message)
}

/// What a failed request for the head of an object says: there is no object only
/// where the storage answered so. Any other failure leaves it open.
pub fn head_failure(message: &str) -> (r: RemoteObject)
    ensures
        r@ == if says_missing(message@) {
            RemoteView::Missing
        } else {
            RemoteView::Failed(message@)
        },
{
    if contains(message, "(404) when calling the HeadObject operation") {
        RemoteObject::Missing
    } else {
        RemoteObject::Failed(message.to_owned())
    }
}

/// The checksum that a tool printed: the first word of its output.
pub fn read_checksum(stdout: &[u8]) -> (r: Option<String>)
    ensures
        opt_text(r) == {
            let words = words_of(bytes_text(stdout@));
            if words.len() > 0 {
                Some(words[0])
            } else {
                None
            }
        },
{
    let text = utf8_lossy(stdout);
    let words = split_whitespace(text.as_str());
    assert(texts(words@).len() == words@.len());
    if words.len() > 0 {
        assert(texts(words@)[0] == words@[0]@);
        Some(words[0].clone())
    } else {
        None
    }
}

/// The message of a tool that failed.
pub fn read_failure(stderr: &[u8]) -> (r: String)
    ensures
        r@ == trimmed(bytes_text(stderr@)),
{
    let text = utf8_lossy(stderr);
    trim(text.as_str())
}

/// What the fields of an answer say of an object: its length, which every object
/// has, and the checksum that was stored with it.
pub open spec fn object_of(
    fields: Result<(Option<u64>, Option<Seq<char>>), Seq<char>>,
) -> RemoteView {
    match fields {
        Ok((Some(length), sha256)) => RemoteView::Found { length, sha256 },
        Ok((None, _)) => RemoteView::Failed("the object has no length"@),
        Err(reason) => RemoteView::Failed(reason),
    }
}

/// What the fields of an answer say of an object.
pub fn head_object(fields: Result<(Option<u64>, Option<String>), String>) -> (r: RemoteObject)
    ensures
        r@ == object_of(fields_view(fields)),
{
    match fields {
        Ok((length, sha256)) => match length {
            Some(length) => RemoteObject::Found { length, sha256 },
            None => RemoteObject::Failed("the object has no length".to_owned()),
        },
        Err(reason) => RemoteObject::Failed(reason),
    }
}

/// What the answer to a request for the head of an object says: its
/// `ContentLength`, and the `sha256` of its `Metadata`.
pub fn read_head(stdout: &[u8]) -> (r: RemoteObject)
    ensures
        r@ == object_of(json_fields(stdout@, "/ContentLength"@, "/Metadata/sha256"@)),
{
    head_object(read_json_fields(stdout, "/ContentLength", "/Metadata/sha256"))
}

/// A request for the head of an object names its bucket and its key, and is made with the
/// endpoint and the profile of the storage.
pub proof fn law_head_request(storage: Storage, key: Seq<char>)
    ensures
        ({
            let words = head_words(storage, key);
            &&& words.len() == 12
            &&& words[0] == "s3api"@ && words[1] == "head-object"@
            &&& words[2] == "--bucket"@ && words[3] == storage.bucket@
            &&& words[4] == "--key"@ && words[5] == key
            &&& words[6] == "--endpoint-url"@ && words[7] == storage.endpoint@
            &&& words[8] == "--profile"@ && words[9] == storage.profile@
            &&& words[10] == "--output"@ && words[11] == "json"@
        }),
{
}

/// An upload copies the file to the key in the bucket, with its checksum as metadata, and is
/// made with the endpoint and the profile of the storage.
pub proof fn law_upload_request(
    storage: Storage,
    path: Seq<char>,
    key: Seq<char>,
    sha256: Seq<char>,
)
    ensures
        ({
            let words = upload_words(storage, path, key, sha256);
            &&& words.len() == 11
            &&& words[0] == "s3"@ && words[1] == "cp"@
            &&& words[2] == path
            &&& words[3] == "s3://"@ + storage.bucket@ + "/"@ + key
            &&& words[4] == "--metadata"@ && words[5] == "sha256="@ + sha256
            &&& words[6] == "--endpoint-url"@ && words[7] == storage.endpoint@
            &&& words[8] == "--profile"@ && words[9] == storage.profile@
            &&& words[10] == "--only-show-errors"@
        }),
{
}

/// An object is missing only where the storage answered so; an answer with a length is an
/// object, with the checksum that it names, and one without is a failure.
pub proof fn law_head_answers(
    message: Seq<char>,
    length: u64,
    sha256: Option<Seq<char>>,
    reason: Seq<char>,
    before: Seq<char>,
    behind: Seq<char>,
)
    ensures
        says_missing(message) ==> occurs_in(
            "(404) when calling the HeadObject operation"@,
            message,
        ),
        says_missing(before + "(404) when calling the HeadObject operation"@ + behind),
        object_of(Ok((Some(length), sha256))) == (RemoteView::Found { length, sha256 }),
        object_of(Ok((None, sha256))) == RemoteView::Failed("the object has no length"@),
        object_of(Err(reason)) == RemoteView::Failed(reason),
{
    let needle = "(404) when calling the HeadObject operation"@;
    let all = before + needle + behind;
    assert(all.subrange(before.len() as int, (before.len() + needle.len()) as int) =~= needle);
    assert(occurs_at(needle, all, before.len() as int));
}

} // verus!
