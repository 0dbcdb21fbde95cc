//! Turning an uploaded file into the easter dataset.

use vstd::prelude::*;
use vstd::utf8::{decode_utf8, valid_utf8};
use crate::text::{chars_to_string, to_chars};

verus! {

/// Why an upload does not become a dataset.
#[derive(Debug, PartialEq, Eq, Structural)]
pub enum DatasetError {
    /// The message has no attachment.
    MissingFile,
    /// The attachment is not UTF-8 text.
    WrongFormat,
}

impl DatasetError {
    /// The answer that tells the user what went wrong.
    pub open spec fn message_spec(self) -> Seq<char> {
        match self {
            DatasetError::MissingFile => "Missing dataset file!"@,
            DatasetError::WrongFormat => "Wrong dataset file format!"@,
        }
    }

    /// The answer that tells the user what went wrong.
    pub fn message(&self) -> (m: String)
        ensures
            m@ == self.message_spec(),
    {
        match self {
            DatasetError::MissingFile => String::from_str("Missing dataset file!"),
            DatasetError::WrongFormat => String::from_str("Wrong dataset file format!"),
        }
    }
}

/// `s` with every `". "` replaced by `","`, matched from the left as
/// `str::replace` matches.
pub open spec fn join_sentences(s: Seq<char>) -> Seq<char>
    decreases s.len(),
{
    if s.len() == 0 {
        s
    } else if s.len() >= 2 && s[0] == '.' && s[1] == ' ' {
        seq![','] + join_sentences(s.skip(2))
    } else {
        seq![s[0]] + join_sentences(s.skip(1))
    }
}

/// The dataset written for an upload: `None` where the message has no
/// attachment, the bytes of the attachment otherwise.
pub open spec fn dataset_spec(upload: Option<Seq<u8>>) -> Result<Seq<char>, DatasetError> {
    match upload {
        None => Err(DatasetError::MissingFile),
        Some(bytes) => if valid_utf8(bytes) {
            Ok(join_sentences(decode_utf8(bytes)))
        } else {
            Err(DatasetError::WrongFormat)
        },
    }
}

/// The view of an optional upload.
pub open spec fn bytes_view(upload: Option<Vec<u8>>) -> Option<Seq<u8>> {
    match upload {
        Some(b) => Some(b@),
        None => None,
    }
}

/// Calls `String::from_utf8`: the text the bytes encode, where they are
/// valid UTF-8, and nothing otherwise.
#[verifier::external_body]
fn utf8_text(bytes: Vec<u8>) -> (text: Option<String>)
    ensures
        text is Some <==> valid_utf8(bytes@),
        text matches Some(t) ==> t@ == decode_utf8(bytes@),
{
    String::from_utf8(bytes).ok()
}

/// Replaces every `". "` of `text` by `","`.
pub fn join_sentences_of(text: &str) -> (r: String)
    ensures
        r@ == join_sentences(text@),
{
    let chars = to_chars(text);
    let mut out: Vec<char> = Vec::new();
    let mut i: usize = 0;
    proof {
        assert(chars@.skip(0) =~= chars@);
    }
    while i < chars.len()
        invariant
            chars@ == text@,
            i <= chars.len(),
            out@ + join_sentences(chars@.skip(i as int)) == join_sentences(text@),
        decreases chars.len() - i,
    {
        let ghost rest = chars@.skip(i as int);
        if i + 1 < chars.len() && chars[i] == '.' && chars[i + 1] == ' ' {
            out.push(',');
            proof {
                assert(rest.skip(2) =~= chars@.skip(i + 2));
                assert(out@ + join_sentences(chars@.skip(i + 2)) =~= out@.drop_last() + join_sentences(rest));
            }
            i += 2;
        } else {
            out.push(chars[i]);
            proof {
                assert(rest.skip(1) =~= chars@.skip(i + 1));
                assert(out@ + join_sentences(chars@.skip(i + 1)) =~= out@.drop_last() + join_sentences(rest));
            }
            i += 1;
        }
    }
    proof {
        assert(chars@.skip(i as int) =~= Seq::<char>::empty());
        assert(out@ =~= out@ + Seq::<char>::empty());
    }
    chars_to_string(&out)
}

/// The dataset command: the text to write for an upload (`None` where the
/// message has no attachment), or why there is none.
pub fn dataset(upload: Option<Vec<u8>>) -> (r: Result<String, DatasetError>)
    ensures
        match (r, dataset_spec(bytes_view(upload))) {
            (Ok(t), Ok(s)) => t@ == s,
            (Err(e), Err(f)) => e == f,
            _ => false,
        },
{
    match upload {
        None => Err(DatasetError::MissingFile),
        Some(bytes) => match utf8_text(bytes) {
            Some(text) => Ok(join_sentences_of(text.as_str())),
            None => Err(DatasetError::WrongFormat),
        },
    }
}

/// `s` holds a dot followed by a space.
pub open spec fn has_dot_space(s: Seq<char>) -> bool {
    exists|i: int| 0 <= i < s.len() - 1 && s[i] == '.' && #[trigger] s[i + 1] == ' '
}

proof fn lemma_join_first(s: Seq<char>)
    ensures
        join_sentences(s).len() == 0 <==> s.len() == 0,
        s.len() > 0 ==> join_sentences(s)[0] == ',' || join_sentences(s)[0] == s[0],
{
}

/// Law: the dataset that is written holds no dot followed by a space; every
/// such pair of the upload became a comma.
pub proof fn law_written_dataset_has_no_dot_space(s: Seq<char>)
    ensures
        !has_dot_space(join_sentences(s)),
    decreases s.len(),
{
    if s.len() > 0 {
        let j = join_sentences(s);
        if s.len() >= 2 && s[0] == '.' && s[1] == ' ' {
            let rest = s.skip(2);
            law_written_dataset_has_no_dot_space(rest);
            assert(j == seq![','] + join_sentences(rest));
            assert forall|i: int| 0 <= i < j.len() - 1 && j[i] == '.' implies #[trigger] j[i + 1] != ' ' by {
                let jr = join_sentences(rest);
                assert(i >= 1);
                assert(j[i] == jr[i - 1]);
                assert(j[i + 1] == jr[(i - 1) + 1]);
            }
        } else {
            let rest = s.skip(1);
            law_written_dataset_has_no_dot_space(rest);
            lemma_join_first(rest);
            assert(j == seq![s[0]] + join_sentences(rest));
            assert forall|i: int| 0 <= i < j.len() - 1 && j[i] == '.' implies #[trigger] j[i + 1] != ' ' by {
                if i == 0 {
                    assert(j[1] == join_sentences(rest)[0]);
                    assert(rest[0] == s[1]);
                } else {
                    let jr = join_sentences(rest);
                    assert(j[i] == jr[i - 1]);
                    assert(j[i + 1] == jr[(i - 1) + 1]);
                }
            }
        }
    }
}

} // verus!
