//! What the library has from outside, and what it takes on trust about it.
//!
//! Nothing here is proved: each contract is what the called function's source
//! or documentation says. Where a result takes pages to state it only has a
//! name, and the library's contracts speak of that name.

use vstd::prelude::*;
use vstd::utf8::{decode_utf8, valid_utf8};

use crate::report::{fields_view, Field, FieldView, FieldValue};
use crate::text::{decimal, first_of, pairs, starts, text_of};

verus! {

/// What `hyper::Uri` reads a text as: the URI written out again, or the
/// message of the error.
pub uninterp spec fn uri_reading(text: Seq<char>) -> Result<Seq<char>, Seq<char>>;

/// `c` may stand in the path and in the query of a URI as it is.
pub open spec fn is_uri_char(c: char) -> bool {
    ||| c == '!'
    ||| '$' <= c <= ';'
    ||| c == '='
    ||| '?' <= c <= '_'
    ||| 'a' <= c <= 'z'
    ||| c == '|'
    ||| c == '~'
}

/// `hyper::Uri`'s `from_str`, with the URI or the error written out by its
/// `Display`.
///
/// Which texts are URIs is left to the name [`uri_reading`], with two facts
/// about URIs below `http://docker/`: what is read is the text up to its
/// fragment, and a text that is not too long and has no special characters is
/// read.
#[verifier::external_body]
pub(crate) fn read_uri(text: &str) -> (r: Result<String, String>)
    ensures
        match r {
            Ok(uri) => uri_reading(text@) == Ok::<Seq<char>, Seq<char>>(uri@),
            Err(message) => uri_reading(text@) == Err::<Seq<char>, Seq<char>>(message@),
        },
        starts(text@, "http://docker/"@) ==> (r matches Ok(uri) ==> uri@ == text@.take(
            first_of(text@, '#'),
        )),
        starts(text@, "http://docker/"@) && text@.len() < 65535 && (forall|i: int|
            0 <= i < text@.len() ==> is_uri_char(#[trigger] text@[i])) ==> r is Ok,
{
    match text.parse::<hyper::Uri>() {
        Ok(uri) => Ok(uri.to_string()),
        Err(error) => Err(error.to_string()),
    }
}

/// How `hyper::StatusCode` writes a status: its number and the phrase that
/// goes with it.
pub uninterp spec fn status_phrase(code: u16) -> Seq<char>;

/// `Display` of `hyper::StatusCode`, for a number that `StatusCode::from_u16`
/// takes: the number in decimal, a space and a phrase.
#[verifier::external_body]
pub(crate) fn status_text(code: u16) -> (out: String)
    requires
        100 <= code < 1000,
    ensures
        out@ == status_phrase(code),
        starts(out@, decimal(code as int).push(' ')),
{
    hyper::StatusCode::from_u16(code).unwrap().to_string()
}

/// `c` may stand in the name of a key's algorithm and in its data.
pub open spec fn is_key_char(c: char) -> bool {
    ||| c == '+'
    ||| '-' <= c <= '9'
    ||| c == '='
    ||| '@' <= c <= 'Z'
    ||| 'a' <= c <= 'z'
}

/// `text` has the form of a public key without a comment: the name of an
/// algorithm, a space, and data.
pub open spec fn is_key_text(text: Seq<char>) -> bool {
    let k = first_of(text, ' ');
    &&& 0 < k < text.len() - 1
    &&& forall|i: int| 0 <= i < text.len() && i != k ==> is_key_char(#[trigger] text[i])
}

/// A line without the comment that stands, behind a space, behind its key. A
/// line that does not begin with a key is left as it is.
pub open spec fn key_part(line: Seq<char>) -> Seq<char> {
    let k = first_of(line, ' ');
    if k < line.len() {
        let m = k + 1 + first_of(line.skip(k + 1), ' ');
        if m < line.len() && is_key_text(line.take(m)) {
            line.take(m)
        } else {
            line
        }
    } else {
        line
    }
}

/// The key that a line of an `authorized_keys` file holds, in the encoding of
/// the SSH protocol: what `PublicKey::to_bytes` gives of what
/// `PublicKey::from_openssh` reads, or the message of the error.
pub uninterp spec fn key_blob(line: Seq<char>) -> Result<Seq<u8>, Seq<char>>;

/// `russh::keys::PublicKey::from_openssh`, with the key taken out as bytes by
/// `to_bytes`, or the error written out by its `Display`. What a line reads as
/// is left to the name [`key_blob`], with one fact: a comment behind the key
/// makes no difference to the key.
#[verifier::external_body]
pub(crate) fn read_key_blob(line: &str) -> (r: Result<Vec<u8>, String>)
    ensures
        match r {
            Ok(key) => key_blob(line@) == Ok::<Seq<u8>, Seq<char>>(key@),
            Err(message) => key_blob(line@) == Err::<Seq<u8>, Seq<char>>(message@),
        },
        match r {
            Ok(key) => key_blob(key_part(line@)) == Ok::<Seq<u8>, Seq<char>>(key@),
            Err(message) => key_blob(key_part(line@)) == Err::<Seq<u8>, Seq<char>>(message@),
        },
{
    russh::keys::PublicKey::from_openssh(line).and_then(|key| key.to_bytes()).map_err(
        |error| error.to_string(),
    )
}

/// `russh::keys::PrivateKey`: a private key, of which nothing is known here.
#[verifier::external_type_specification]
#[verifier::external_body]
pub struct ExPrivateKey(russh::keys::PrivateKey);

/// What `PrivateKey::from_openssh` reads a text as: a key, or the message of
/// the error.
pub uninterp spec fn private_key(pem: Seq<char>) -> Result<russh::keys::PrivateKey, Seq<char>>;

/// `russh::keys::PrivateKey::from_openssh`, with an error written out by its
/// `Display`.
#[verifier::external_body]
pub(crate) fn read_private_key(pem: &str) -> (r: Result<russh::keys::PrivateKey, String>)
    ensures
        match r {
            Ok(key) => private_key(pem@) == Ok::<russh::keys::PrivateKey, Seq<char>>(key),
            Err(message) => private_key(pem@) == Err::<russh::keys::PrivateKey, Seq<char>>(
                message@,
            ),
        },
{
    russh::keys::PrivateKey::from_openssh(pem).map_err(|error| error.to_string())
}

/// The name of the algorithm of the key that `PrivateKey::from_openssh` reads a
/// text as: what `PrivateKey::algorithm` gives, written by
/// `Algorithm::as_str`.
pub uninterp spec fn private_key_algorithm(pem: Seq<char>) -> Seq<char>;

/// `russh::keys::PrivateKey::random` for an algorithm given by its name, with
/// `rand::rng` as the source of chance, and the text that `to_openssh` writes
/// for the key, its lines ending in a line feed. An Ed25519 key is always
/// made. Which key it is, is chance; whatever it is,
/// `PrivateKey::from_openssh` reads the text as that key, and the key is one
/// of the algorithm asked for.
#[verifier::external_body]
pub(crate) fn fresh_private_key(algorithm: &str) -> (r: Result<
    (russh::keys::PrivateKey, String),
    String,
>)
    requires
        algorithm@ == "ssh-ed25519"@,
    ensures
        match r {
            Ok(made) => private_key(made.1@) == Ok::<russh::keys::PrivateKey, Seq<char>>(made.0)
                && private_key_algorithm(made.1@) == algorithm@,
            Err(_) => false,
        },
{
    let line_ending = russh::keys::ssh_key::LineEnding::LF;
    let made = russh::keys::Algorithm::new(algorithm).and_then(
        |algorithm| russh::keys::PrivateKey::random(&mut rand::rng(), algorithm),
    ).and_then(|key| key.to_openssh(line_ending).map(|text| (key, text.to_string())));
    made.map_err(|error| error.to_string())
}

/// What `String::from_utf8_lossy` reads bytes as.
pub uninterp spec fn lossy(bytes: Seq<u8>) -> Seq<char>;

/// `String::from_utf8_lossy`: the text that the bytes encode where they are
/// valid UTF-8. What stands in for invalid bytes is left to the name
/// [`lossy`].
#[verifier::external_body]
pub(crate) fn lossy_text(bytes: &[u8]) -> (out: String)
    ensures
        out@ == lossy(bytes@),
        valid_utf8(bytes@) ==> out@ == decode_utf8(bytes@),
{
    String::from_utf8_lossy(bytes).into_owned()
}

/// The path without its last component, as `Path::parent` of a Unix system
/// gives it.
pub uninterp spec fn parent_of(path: Seq<char>) -> Option<Seq<char>>;

/// `path` is a directory, a `/` and a name, without anything that a path could
/// be shortened by.
pub open spec fn plainly_in(path: Seq<char>, directory: Seq<char>) -> bool {
    let n = directory.len() as int;
    &&& 0 < n < path.len() - 1
    &&& path.take(n) == directory
    &&& directory[n - 1] != '/' && directory[n - 1] != '.'
    &&& path[n] == '/'
    &&& path[n + 1] != '.'
    &&& forall|i: int| n < i < path.len() ==> #[trigger] path[i] != '/'
}

/// `std::path::Path::parent`, between paths that are text: the path without
/// its final component. What that is in general is left to the name
/// [`parent_of`]; of a plain path it is the directory.
#[verifier::external_body]
pub(crate) fn parent_path(path: &str) -> (r: Option<String>)
    ensures
        text_of(r) == parent_of(path@),
        forall|directory: Seq<char>| #[trigger]
            plainly_in(path@, directory) ==> text_of(r) == Some(directory),
{
    std::path::Path::new(path).parent().map(|parent| parent.to_string_lossy().into_owned())
}

/// The JSON object with the given text members, and with one more member,
/// `nested`, that is an object itself, as `serde_json` writes it.
pub uninterp spec fn json_object(
    members: Seq<(Seq<char>, Seq<char>)>,
    nested: Seq<char>,
    fields: Seq<(Seq<char>, FieldView)>,
) -> Seq<char>;

/// `Display` of `serde_json::Value`, on the object with these members.
#[verifier::external_body]
pub(crate) fn json_text(
    members: Vec<(String, String)>,
    nested: String,
    fields: Vec<Field>,
) -> (out: String)
    ensures
        out@ == json_object(pairs(members@), nested@, fields_view(fields@)),
{
    let convert = |value: FieldValue| match value {
        FieldValue::Text(text) => serde_json::Value::from(text),
        FieldValue::Number(number) => serde_json::Value::from(number),
        FieldValue::Flag(flag) => serde_json::Value::from(flag),
        FieldValue::List(list) => serde_json::Value::from(list),
        FieldValue::Absent => serde_json::Value::Null,
    };
    let inner = fields.into_iter().map(|f| (f.name, convert(f.value))).collect();
    let mut outer: serde_json::Map<String, serde_json::Value> = members.into_iter().map(
        |(name, text)| (name, serde_json::Value::from(text)),
    ).collect();
    outer.insert(nested, serde_json::Value::Object(inner));
    serde_json::Value::Object(outer).to_string()
}

} // verus!
