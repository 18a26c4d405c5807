//! This device's id: a UUID kept in a file, made anew when the file is
//! missing or does not hold one.
use vstd::prelude::*;
use vstd::string::StringExecFns;

verus! {

/// A character of Unicode's `White_Space` property, the white space that
/// `str::trim` removes.
pub open spec fn is_white_space(c: char) -> bool {
    let u = c as int;
    ||| 9 <= u <= 13
    ||| u == 32
    ||| u == 0x85
    ||| u == 0xa0
    ||| u == 0x1680
    ||| 0x2000 <= u <= 0x200a
    ||| u == 0x2028
    ||| u == 0x2029
    ||| u == 0x202f
    ||| u == 0x205f
    ||| u == 0x3000
}

/// A text without its leading white space.
pub open spec fn trim_start(s: Seq<char>) -> Seq<char>
    decreases s.len(),
{
    if s.len() > 0 && is_white_space(s[0]) {
        trim_start(s.drop_first())
    } else {
        s
    }
}

/// A text without its trailing white space.
pub open spec fn trim_end(s: Seq<char>) -> Seq<char>
    decreases s.len(),
{
    if s.len() > 0 && is_white_space(s.last()) {
        trim_end(s.drop_last())
    } else {
        s
    }
}

/// What `str::trim` leaves of a text: leading and trailing white space
/// removed.
pub open spec fn trimmed(s: Seq<char>) -> Seq<char> {
    trim_end(trim_start(s))
}

proof fn lemma_trim_start_head(s: Seq<char>)
    ensures
        trim_start(s).len() == 0 || !is_white_space(trim_start(s)[0]),
    decreases s.len(),
{
    if s.len() > 0 && is_white_space(s[0]) {
        lemma_trim_start_head(s.drop_first());
    }
}

proof fn lemma_trim_end_prefix(s: Seq<char>)
    ensures
        trim_end(s).len() <= s.len(),
        trim_end(s) =~= s.subrange(0, trim_end(s).len() as int),
        trim_end(s).len() == 0 || !is_white_space(trim_end(s).last()),
    decreases s.len(),
{
    if s.len() > 0 && is_white_space(s.last()) {
        lemma_trim_end_prefix(s.drop_last());
    }
}

/// Trimming a trimmed text changes nothing.
pub proof fn lemma_trimmed_is_trimmed(s: Seq<char>)
    ensures
        trimmed(trimmed(s)) == trimmed(s),
{
    let a = trim_start(s);
    let t = trim_end(a);
    lemma_trim_start_head(s);
    lemma_trim_end_prefix(a);
    if t.len() > 0 {
        assert(t[0] == a[0]);
        assert(trim_start(t) == t);
        assert(trim_end(t) == t);
    } else {
        assert(trim_start(t) == t);
    }
}

/// `str::trim`.
#[verifier::external_body]
fn str_trim(s: &str) -> (res: &str)
    ensures
        res@ == trimmed(s@),
{
    s.trim()
}

/// An ASCII hexadecimal digit, either case.
pub open spec fn is_hex_digit(c: char) -> bool {
    ||| '0' <= c <= '9'
    ||| 'a' <= c <= 'f'
    ||| 'A' <= c <= 'F'
}

/// The hyphenated form: 36 characters, hyphens at 8, 13, 18 and 23 and
/// hexadecimal digits elsewhere.
pub open spec fn is_hyphenated_uuid(s: Seq<char>) -> bool {
    &&& s.len() == 36
    &&& forall|i: int|
        0 <= i < 36 ==> if i == 8 || i == 13 || i == 18 || i == 23 {
            s[i] == '-'
        } else {
            is_hex_digit(#[trigger] s[i])
        }
}

/// `c` equals the lower-case ASCII letter or sign `l` up to ASCII case.
pub open spec fn same_ignoring_ascii_case(c: char, l: char) -> bool {
    c == l || ('a' <= l <= 'z' && (c as int) + 32 == (l as int))
}

/// The four texts uuid reads as a UUID (`uuid::Uuid::parse_str`): 32
/// hexadecimal digits; the hyphenated form; the hyphenated form in braces;
/// or the hyphenated form after `urn:uuid:` in any ASCII case.
pub open spec fn is_uuid_text(s: Seq<char>) -> bool {
    ||| s.len() == 32 && forall|i: int| 0 <= i < 32 ==> is_hex_digit(#[trigger] s[i])
    ||| is_hyphenated_uuid(s)
    ||| s.len() == 38 && s[0] == '{' && s[37] == '}' && is_hyphenated_uuid(s.subrange(1, 37))
    ||| s.len() == 45 && (forall|i: int|
        0 <= i < 9 ==> same_ignoring_ascii_case(#[trigger] s[i], "urn:uuid:"@[i]))
        && is_hyphenated_uuid(s.subrange(9, 45))
}

/// Whether uuid reads a text as a UUID (see `is_uuid_text`).
#[verifier::external_body]
fn uuid_parses(s: &str) -> (res: bool)
    ensures
        res == is_uuid_text(s@),
{
    uuid::Uuid::parse_str(s).is_ok()
}

/// The text of a random (version 4) UUID as `uuid::Uuid::new_v4` writes it:
/// the hyphenated form in lower case, with `4` at 14 and one of `8`, `9`,
/// `a`, `b` at 19.
pub open spec fn is_v4_uuid_text(s: Seq<char>) -> bool {
    &&& s.len() == 36
    &&& forall|i: int|
        0 <= i < 36 ==> if i == 8 || i == 13 || i == 18 || i == 23 {
            s[i] == '-'
        } else {
            ('0' <= #[trigger] s[i] <= '9') || ('a' <= s[i] <= 'f')
        }
    &&& s[14] == '4'
    &&& (s[19] == '8' || s[19] == '9' || s[19] == 'a' || s[19] == 'b')
}

/// A random UUID's text is one uuid reads back, and trimming leaves it as
/// it is.
pub proof fn lemma_v4_uuid_text(s: Seq<char>)
    requires
        is_v4_uuid_text(s),
    ensures
        is_uuid_text(s),
        trimmed(s) == s,
{
    assert(is_hyphenated_uuid(s)) by {
        assert forall|i: int| 0 <= i < 36 && !(i == 8 || i == 13 || i == 18 || i == 23) implies is_hex_digit(
            #[trigger] s[i],
        ) by {}
    }
    assert(!is_white_space(s[0]));
    assert(!is_white_space(s.last())) by {
        assert(s.last() == s[35]);
    }
    assert(trim_start(s) == s);
    assert(trim_end(s) == s);
}

/// The id kept in the file, if the file's text, trimmed, is a UUID.
pub fn stored_device_id(content: &str) -> (res: Option<String>)
    ensures
        is_uuid_text(trimmed(content@)) ==> (res matches Some(id) && id@ == trimmed(content@)),
        !is_uuid_text(trimmed(content@)) ==> res is None,
        res matches Some(id) ==> trimmed(id@) == id@,
{
    let t = str_trim(content);
    proof {
        lemma_trimmed_is_trimmed(content@);
    }
    if uuid_parses(t) {
        let mut s = String::new();
        s.append(t);
        assert(s@ =~= t@);
        Some(s)
    } else {
        None
    }
}

/// What resolving the id does with the id file's text (`None` when it
/// could not be read): a stored id that is a UUID once trimmed is kept as
/// trimmed and not written back; otherwise a new id is made and must be
/// written, and it is a random UUID's text. Either way the id is a UUID
/// text that trimming leaves as it is.
pub open spec fn device_id_outcome(content: Option<Seq<char>>, id: Seq<char>, must_write: bool) -> bool {
    &&& is_uuid_text(id)
    &&& trimmed(id) == id
    &&& match content {
        Some(c) => if is_uuid_text(trimmed(c)) {
            id == trimmed(c) && !must_write
        } else {
            must_write
        },
        None => must_write,
    }
    &&& (must_write ==> is_v4_uuid_text(id))
}

fn fresh_id() -> (res: (String, bool))
    ensures
        is_v4_uuid_text(res.0@),
        is_uuid_text(res.0@),
        trimmed(res.0@) == res.0@,
        res.1,
{
    let id = crate::webupload::new_token();
    proof {
        lemma_v4_uuid_text(id@);
    }
    (id, true)
}

/// This device's id given what the id file holds (see
/// `device_id_outcome`): the stored id if it is one, else a fresh random
/// UUID. The flag tells whether the id is new and must be written back.
pub fn resolve_device_id(content: Option<&str>) -> (res: (String, bool))
    ensures
        device_id_outcome(
            match content {
                Some(c) => Some(c@),
                None => None,
            },
            res.0@,
            res.1,
        ),
{
    match content {
        Some(c) => match stored_device_id(c) {
            Some(id) => (id, false),
            None => fresh_id(),
        },
        None => fresh_id(),
    }
}

/// Once an id has been resolved and written back, resolving again from the
/// file gives the same id and writes nothing.
pub proof fn lemma_device_id_is_stable(content: Option<Seq<char>>, id: Seq<char>, must_write: bool, id2: Seq<char>, must_write2: bool)
    requires
        device_id_outcome(content, id, must_write),
        device_id_outcome(Some(id), id2, must_write2),
    ensures
        id2 == id,
        !must_write2,
{
}

} // verus!
