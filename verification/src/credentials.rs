//! The saved credentials: the user name and the password, each encoded in
//! Base64 on a line of its own.
use vstd::prelude::*;
use vstd::utf8::{valid_utf8, decode_utf8, encode_utf8};
use crate::text::{chars_of, lines, lines_acc, strip_cr, str_from_utf8, string_from_chars};

verus! {

#[verifier::external_type_specification]
#[verifier::external_body]
pub struct ExDecodeError(base64::DecodeError);

/// What `base64::encode` returns for a byte string (standard alphabet,
/// with padding).
pub uninterp spec fn spec_base64_encode(b: Seq<u8>) -> Seq<char>;

/// What `base64::decode` gives for a text: the bytes it encodes, or `None`
/// when it is not valid standard Base64.
pub uninterp spec fn spec_base64_decode(s: Seq<char>) -> Option<Seq<u8>>;

/// A character of the standard Base64 alphabet, or the padding `=`.
pub open spec fn is_base64_char(c: char) -> bool {
    ('A' <= c && c <= 'Z') || ('a' <= c && c <= 'z') || ('0' <= c && c <= '9') || c == '+' || c
        == '/' || c == '='
}

/// `base64::encode`: the standard Base64 text of `b`. Its result is named by
/// `spec_base64_encode`; stated of it are that it is made of Base64
/// characters and that `base64::decode` gives `b` back.
#[verifier::external_body]
fn base64_encode(b: &[u8]) -> (r: String)
    ensures
        r@ == spec_base64_encode(b@),
        forall|i: int| 0 <= i < r@.len() ==> is_base64_char(#[trigger] r@[i]),
        spec_base64_decode(r@) == Some(b@),
{
    base64::encode(b)
}

/// `base64::decode` of the bytes of `s`; its result is named by
/// `spec_base64_decode`.
#[verifier::external_body]
fn base64_decode(s: &str) -> (r: Result<Vec<u8>, base64::DecodeError>)
    ensures
        match r {
            Ok(v) => spec_base64_decode(s@) == Some(v@),
            Err(_) => spec_base64_decode(s@) is None,
        },
{
    base64::decode(s)
}

/// The text of the credentials file: the Base64 of the user name's bytes
/// and of the password's bytes, each on its own line.
pub open spec fn credentials_text(username: Seq<char>, password: Seq<char>) -> Seq<char> {
    spec_base64_encode(encode_utf8(username)) + "\n"@ + spec_base64_encode(encode_utf8(password))
        + "\n"@
}

/// Why the saved credentials could not be read.
#[derive(Clone, Copy, Debug, PartialEq, Eq, Structural)]
pub enum CredentialError {
    /// The file has no line.
    Empty,
    /// A line is not Base64.
    BadBase64,
    /// A decoded line is not UTF-8.
    BadUtf8,
}

/// The text that a saved line holds.
pub open spec fn decode_field(line: Seq<char>) -> Result<Seq<char>, CredentialError> {
    match spec_base64_decode(line) {
        None => Err(CredentialError::BadBase64),
        Some(b) => if valid_utf8(b) {
            Ok(decode_utf8(b))
        } else {
            Err(CredentialError::BadUtf8)
        },
    }
}

/// The user name (from the first line) and the password (from the last).
pub open spec fn decode_credentials(ls: Seq<Seq<char>>) -> Result<(Seq<char>, Seq<char>), CredentialError> {
    if ls.len() == 0 {
        Err(CredentialError::Empty)
    } else {
        match decode_field(ls[0]) {
            Err(e) => Err(e),
            Ok(u) => match decode_field(ls.last()) {
                Err(e) => Err(e),
                Ok(p) => Ok((u, p)),
            },
        }
    }
}

/// A line without line feeds, then a line feed: one line.
proof fn lemma_lines_acc_line(s: Seq<char>, rest: Seq<char>, cur: Seq<char>)
    requires
        forall|i: int| 0 <= i < s.len() ==> s[i] != '\n',
    ensures
        lines_acc(s + seq!['\n'] + rest, cur) == seq![strip_cr(cur + s)] + lines_acc(rest, seq![]),
    decreases s.len(),
{
    if s.len() == 0 {
        assert(s + seq!['\n'] + rest =~= seq!['\n'] + rest);
        assert((seq!['\n'] + rest).drop_first() =~= rest);
        assert(cur + s =~= cur);
    } else {
        assert((s + seq!['\n'] + rest).drop_first() =~= s.drop_first() + seq!['\n'] + rest);
        lemma_lines_acc_line(s.drop_first(), rest, cur.push(s[0]));
        assert(cur.push(s[0]) + s.drop_first() =~= cur + s);
    }
}

fn field_text(line: &str) -> (r: Result<String, CredentialError>)
    ensures
        match r {
            Ok(s) => decode_field(line@) == Ok::<Seq<char>, CredentialError>(s@),
            Err(e) => decode_field(line@) == Err::<Seq<char>, CredentialError>(e),
        },
{
    let bytes = match base64_decode(line) {
        Ok(b) => b,
        Err(_) => {
            return Err(CredentialError::BadBase64);
        },
    };
    match str_from_utf8(bytes.as_slice()) {
        Some(s) => Ok(string_from_chars(chars_of(s).as_slice())),
        None => Err(CredentialError::BadUtf8),
    }
}

/// Reads the user name (first line) and the password (last line) from the
/// lines of the credentials file.
pub fn decode_user_password(lines: &Vec<String>) -> (r: Result<(String, String), CredentialError>)
    ensures
        match r {
            Ok((u, p)) => decode_credentials(crate::launcher::strs(lines@)) == Ok::<(Seq<char>, Seq<char>), CredentialError>((u@, p@)),
            Err(e) => decode_credentials(crate::launcher::strs(lines@)) == Err::<(Seq<char>, Seq<char>), CredentialError>(e),
        },
{
    if lines.len() == 0 {
        return Err(CredentialError::Empty);
    }
    let username = match field_text(lines[0].as_str()) {
        Ok(u) => u,
        Err(e) => {
            return Err(e);
        },
    };
    let last = lines.len() - 1;
    let password = match field_text(lines[last].as_str()) {
        Ok(p) => p,
        Err(e) => {
            return Err(e);
        },
    };
    Ok((username, password))
}

/// The text of the credentials file for a user name and a password; read
/// back line by line, it gives the same user name and password.
pub fn credentials_file_text(username: &str, password: &str) -> (r: String)
    ensures
        r@ == credentials_text(username@, password@),
        decode_credentials(lines(r@)) == Ok::<(Seq<char>, Seq<char>), CredentialError>((username@, password@)),
{
    let eu = base64_encode(username.as_bytes());
    let ep = base64_encode(password.as_bytes());
    let mut v: Vec<char> = chars_of(eu.as_str());
    crate::launcher::push_str(&mut v, "\n");
    crate::launcher::push_str(&mut v, ep.as_str());
    crate::launcher::push_str(&mut v, "\n");
    proof {
        reveal_strlit("\n");
        let e1 = eu@;
        let e2 = ep@;
        assert forall|i: int| 0 <= i < e1.len() implies e1[i] != '\n' by {
            assert(is_base64_char(e1[i]));
        }
        assert forall|i: int| 0 <= i < e2.len() implies e2[i] != '\n' by {
            assert(is_base64_char(e2[i]));
        }
        assert(v@ =~= e1 + seq!['\n'] + (e2 + seq!['\n'] + Seq::<char>::empty()));
        lemma_lines_acc_line(e1, e2 + seq!['\n'] + Seq::<char>::empty(), seq![]);
        lemma_lines_acc_line(e2, Seq::<char>::empty(), seq![]);
        assert(Seq::<char>::empty() + e1 =~= e1);
        assert(Seq::<char>::empty() + e2 =~= e2);
        if e1.len() > 0 {
            assert(is_base64_char(e1.last()));
        }
        if e2.len() > 0 {
            assert(is_base64_char(e2.last()));
        }
        assert(strip_cr(e1) == e1);
        assert(strip_cr(e2) == e2);
        let ls = lines(v@);
        assert(ls =~= seq![e1, e2]);
        vstd::utf8::encode_utf8_valid_utf8(username@);
        vstd::utf8::encode_utf8_decode_utf8(username@);
        vstd::utf8::encode_utf8_valid_utf8(password@);
        vstd::utf8::encode_utf8_decode_utf8(password@);
        assert(decode_field(e1) == Ok::<Seq<char>, CredentialError>(username@));
        assert(decode_field(e2) == Ok::<Seq<char>, CredentialError>(password@));
        assert(ls.last() == e2);
    }
    string_from_chars(v.as_slice())
}

} // verus!
