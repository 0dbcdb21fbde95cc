//! The owl's visit to the barber: a new avatar, and the messages that follow
//! the visit.

use vstd::prelude::*;

verus! {

/// The character of a 6-bit value in the standard base64 alphabet
/// (RFC 4648): `A`-`Z`, `a`-`z`, `0`-`9`, `+`, `/`.
pub open spec fn base64_char(v: int) -> char {
    if v < 26 {
        (65 + v) as char
    } else if v < 52 {
        (97 + v - 26) as char
    } else if v < 62 {
        (48 + v - 52) as char
    } else if v == 62 {
        '+'
    } else {
        '/'
    }
}

/// The standard base64 encoding of `data` with padding (RFC 4648): each
/// group of three bytes becomes four characters of six bits each; a last
/// group of one or two bytes is padded with `=` to four characters.
pub open spec fn base64_standard(data: Seq<u8>) -> Seq<char>
    decreases data.len(),
{
    let a = data[0] as int;
    let b = data[1] as int;
    let c = data[2] as int;
    if data.len() == 0 {
        Seq::empty()
    } else if data.len() == 1 {
        seq![base64_char(a / 4), base64_char((a % 4) * 16), '=', '=']
    } else if data.len() == 2 {
        seq![base64_char(a / 4), base64_char((a % 4) * 16 + b / 16), base64_char((b % 16) * 4), '=']
    } else {
        seq![
            base64_char(a / 4),
            base64_char((a % 4) * 16 + b / 16),
            base64_char((b % 16) * 4 + c / 64),
            base64_char(c % 64),
        ] + base64_standard(data.skip(3))
    }
}

/// The 6-bit value of a character of the standard base64 alphabet.
pub open spec fn base64_value(c: char) -> int {
    if 'A' <= c <= 'Z' {
        c as int - 65
    } else if 'a' <= c <= 'z' {
        c as int - 71
    } else if '0' <= c <= '9' {
        c as int + 4
    } else if c == '+' {
        62
    } else {
        63
    }
}

/// Standard base64 decoding, four characters at a time; a group padded with
/// `=` ends the data.
pub open spec fn base64_decode(s: Seq<char>) -> Seq<u8>
    decreases s.len(),
{
    if s.len() < 4 {
        Seq::empty()
    } else {
        let v0 = base64_value(s[0]);
        let v1 = base64_value(s[1]);
        let v2 = base64_value(s[2]);
        let v3 = base64_value(s[3]);
        let a = (v0 * 4 + v1 / 16) as u8;
        let b = ((v1 % 16) * 16 + v2 / 4) as u8;
        let c = ((v2 % 4) * 64 + v3) as u8;
        if s[2] == '=' {
            seq![a]
        } else if s[3] == '=' {
            seq![a, b]
        } else {
            seq![a, b, c] + base64_decode(s.skip(4))
        }
    }
}

proof fn lemma_base64_char(v: int)
    requires
        0 <= v < 64,
    ensures
        base64_value(base64_char(v)) == v,
        base64_char(v) != '=',
{
}

/// Law: the avatar's data URL carries the image itself. Decoding the
/// standard base64 encoding of any bytes gives those bytes back, so two
/// different images never share an encoding.
pub proof fn law_base64_round_trip(data: Seq<u8>)
    ensures
        base64_decode(base64_standard(data)) == data,
    decreases data.len(),
{
    let e = base64_standard(data);
    if data.len() > 0 {
        let a = data[0] as int;
        let b = if data.len() > 1 { data[1] as int } else { 0 };
        let c = if data.len() > 2 { data[2] as int } else { 0 };
        lemma_base64_char(a / 4);
        if data.len() == 1 {
            lemma_base64_char((a % 4) * 16);
            assert(base64_decode(e) =~= data);
        } else if data.len() == 2 {
            lemma_base64_char((a % 4) * 16 + b / 16);
            lemma_base64_char((b % 16) * 4);
            assert(base64_decode(e) =~= data);
        } else {
            lemma_base64_char((a % 4) * 16 + b / 16);
            lemma_base64_char((b % 16) * 4 + c / 64);
            lemma_base64_char(c % 64);
            law_base64_round_trip(data.skip(3));
            let head = seq![
                base64_char(a / 4),
                base64_char((a % 4) * 16 + b / 16),
                base64_char((b % 16) * 4 + c / 64),
                base64_char(c % 64),
            ];
            assert(e == head + base64_standard(data.skip(3)));
            assert(e.skip(4) =~= base64_standard(data.skip(3)));
            assert(data =~= seq![data[0], data[1], data[2]] + data.skip(3));
        }
    }
}

/// Calls `base64::Engine::encode` of the `STANDARD` engine: the standard
/// base64 encoding with padding.
#[verifier::external_body]
fn base64_encode(data: &[u8]) -> (encoded: String)
    ensures
        encoded@ == base64_standard(data@),
{
    base64::Engine::encode(&base64::engine::general_purpose::STANDARD, data)
}

/// The data URL that carries an image of media type `mime` whose base64
/// form is `encoded`.
pub open spec fn data_url_spec(mime: Seq<char>, encoded: Seq<char>) -> Seq<char> {
    "data:"@ + mime + ";base64,"@ + encoded
}

/// The data URL of an image already encoded in base64.
pub fn data_url(mime: &str, encoded: &str) -> (url: String)
    ensures
        url@ == data_url_spec(mime@, encoded@),
{
    let mut url = String::from_str("data:");
    url.append(mime);
    url.append(";base64,");
    url.append(encoded);
    url
}

/// The data URL of the new avatar, an image of media type `mime`.
pub fn avatar_data_url(mime: &str, image: &[u8]) -> (url: String)
    ensures
        url@ == data_url_spec(mime@, base64_standard(image@)),
{
    let encoded = base64_encode(image);
    data_url(mime, encoded.as_str())
}

/// The first answer to the barber command.
pub open spec fn going_text() -> Seq<char> {
    "🐱‍🏍 Going to barber ..."@
}

/// The first answer to the barber command.
pub fn going_message() -> (m: String)
    ensures
        m@ == going_text(),
{
    String::from_str("🐱‍🏍 Going to barber ...")
}

/// The answer while the new avatar is uploaded, below the first one.
pub open spec fn working_text(going: Seq<char>) -> Seq<char> {
    going + "\n🐱‍👤 Barber is working ... "@
}

/// The answer while the new avatar is uploaded, below the first one.
pub fn working_message(going: &str) -> (m: String)
    ensures
        m@ == working_text(going@),
{
    let mut m = String::from_str(going);
    m.append("\n🐱‍👤 Barber is working ... ");
    m
}

/// How the upload of the avatar ended.
pub enum BarberOutcome {
    /// The avatar was set.
    Updated,
    /// The service refused it: its error, pretty-printed, and its message.
    Rejected { details: String, message: String },
    /// The request failed: the error as displayed.
    Failed { error: String },
}

/// What the barber command shows and returns at its end.
pub struct BarberEnd {
    /// The final text of the answer.
    pub content: String,
    /// Whether the new avatar is shown with it.
    pub show_avatar: bool,
    /// The error that the command ends with, if any.
    pub error: Option<String>,
}

/// The final text of the answer after the upload, below the working text.
pub open spec fn end_text(working: Seq<char>, outcome: BarberOutcome) -> Seq<char> {
    match outcome {
        BarberOutcome::Updated => working + "\n✅ Barber finished!"@,
        BarberOutcome::Rejected { details, message } => working + "\n💥 Barber failed!\n```"@
            + details@ + "```\n"@,
        BarberOutcome::Failed { error } => working + "\n💥 Barber totaly failed!\n```"@ + error@
            + "```\n"@,
    }
}

/// The end of the barber command: the final answer below the working text,
/// the new avatar shown only when it was set, and the error of a refusal
/// (its message) or of a failed request.
pub fn barber_end(working: &str, outcome: BarberOutcome) -> (end: BarberEnd)
    ensures
        end.content@ == end_text(working@, outcome),
        end.show_avatar <==> outcome is Updated,
        match outcome {
            BarberOutcome::Updated => end.error is None,
            BarberOutcome::Rejected { details, message } => end.error matches Some(e) && e@
                == message@,
            BarberOutcome::Failed { error } => end.error matches Some(e) && e@ == error@,
        },
{
    let mut content = String::from_str(working);
    match outcome {
        BarberOutcome::Updated => {
            content.append("\n✅ Barber finished!");
            BarberEnd { content, show_avatar: true, error: None }
        },
        BarberOutcome::Rejected { details, message } => {
            content.append("\n💥 Barber failed!\n```");
            content.append(details.as_str());
            content.append("```\n");
            BarberEnd { content, show_avatar: false, error: Some(message) }
        },
        BarberOutcome::Failed { error } => {
            content.append("\n💥 Barber totaly failed!\n```");
            content.append(error.as_str());
            content.append("```\n");
            BarberEnd { content, show_avatar: false, error: Some(error) }
        },
    }
}

} // verus!
