//! Cleaning and checking text that users submit: contact messages and
//! search queries.
use vstd::prelude::*;
use vstd::string::*;
use crate::strings::{push_char, trim, trim_spec};

verus! {

/// What `str::to_lowercase` returns for a text.
pub uninterp spec fn lower_of(s: Seq<char>) -> Seq<char>;

/// Whether `validator::ValidateEmail::validate_email` accepts the text as an
/// e-mail address (the HTML5 form of one).
pub uninterp spec fn valid_email(s: Seq<char>) -> bool;

/// Relies on `str::to_lowercase`: the lower-case form of the text, which
/// depends on its characters alone; an empty text stays empty.
#[verifier::external_body]
pub(crate) fn lowercase(s: &str) -> (r: String)
    ensures
        r@ == lower_of(s@),
        s@.len() == 0 ==> r@.len() == 0,
{
    s.to_lowercase()
}

/// Relies on `validator::ValidateEmail::validate_email`: whether the text
/// is an e-mail address; one without an `@` never is.
#[verifier::external_body]
fn email_is_valid(s: &str) -> (r: bool)
    ensures
        r == valid_email(s@),
        r ==> s@.contains('@'),
{
    validator::ValidateEmail::validate_email(&s)
}

/// The characters that `char::is_ascii_punctuation` accepts.
pub open spec fn is_ascii_punctuation(c: char) -> bool {
    ('!' <= c && c <= '/') || (':' <= c && c <= '@') || ('[' <= c && c <= '`') || ('{' <= c
        && c <= '~')
}

/// `s` without its ASCII punctuation.
pub open spec fn without_punctuation(s: Seq<char>) -> Seq<char> {
    s.filter(|c: char| !is_ascii_punctuation(c))
}

/// Copies `s` without its ASCII punctuation.
pub fn strip_punctuation(s: &str) -> (r: String)
    ensures
        r@ == without_punctuation(s@),
{
    let n = s.unicode_len();
    let mut out = String::new();
    let mut i: usize = 0;
    while i < n
        invariant
            n == s@.len(),
            i <= n,
            out@ == without_punctuation(s@.subrange(0, i as int)),
        decreases n - i,
    {
        let c = s.get_char(i);
        let punct = ('!' <= c && c <= '/') || (':' <= c && c <= '@') || ('[' <= c && c <= '`')
            || ('{' <= c && c <= '~');
        assert(s@.subrange(0, i + 1).drop_last() =~= s@.subrange(0, i as int));
        reveal(Seq::filter);
        if !punct {
            push_char(&mut out, c);
        }
        i = i + 1;
    }
    assert(s@.subrange(0, n as int) =~= s@);
    out
}

/// A search query: trimmed, lower case, without ASCII punctuation.
pub open spec fn cleaned_query(s: Seq<char>) -> Seq<char> {
    without_punctuation(lower_of(trim_spec(s)))
}

/// A contact message: trimmed and without ASCII punctuation.
pub open spec fn cleaned_message(s: Seq<char>) -> Seq<char> {
    without_punctuation(trim_spec(s))
}

/// Text submitted by users, which is cleaned before it is used.
pub trait ExternalText: Sized {
    /// How `cleaned` relates a value to its cleaned form.
    spec fn cleaned_from(&self, r: &Self) -> bool;

    /// The value with its text cleaned.
    fn cleaned(&self) -> (r: Self)
        ensures
            self.cleaned_from(&r),
    ;
}

/// Most characters a contact message may have.
pub const MAX_MESSAGE_CHARS: usize = 800;

/// Why a contact message was refused.
#[derive(Debug, Clone, Copy, PartialEq, Eq, Structural)]
pub enum ValidationError {
    /// The e-mail address is not valid.
    Email,
    /// The message is empty or longer than `MAX_MESSAGE_CHARS` characters.
    Length,
}

/// A message sent through the contact form.
#[derive(Debug)]
pub struct Message {
    pub email: String,
    pub message: String,
}

impl Message {
    /// Accepts a message with a valid e-mail address and a text of 1 to
    /// `MAX_MESSAGE_CHARS` characters.
    pub fn validate(&self) -> (r: Result<(), ValidationError>)
        ensures
            r is Ok <==> valid_email(self.email@) && 1 <= self.message@.len() <= MAX_MESSAGE_CHARS,
            r == Err::<(), ValidationError>(ValidationError::Email) <==> !valid_email(self.email@),
    {
        if !email_is_valid(self.email.as_str()) {
            return Err(ValidationError::Email);
        }
        let n = self.message.as_str().unicode_len();
        if n < 1 || n > MAX_MESSAGE_CHARS {
            return Err(ValidationError::Length);
        }
        Ok(())
    }
}

impl ExternalText for Message {
    open spec fn cleaned_from(&self, r: &Self) -> bool {
        r.email@ == self.email@ && r.message@ == cleaned_message(self.message@)
    }

    fn cleaned(&self) -> (r: Self) {
        let t = trim(self.message.as_str());
        Message { email: self.email.clone(), message: strip_punctuation(t.as_str()) }
    }
}

/// The text of a product search.
#[derive(Debug, Default, Clone)]
pub struct SearchQuery(pub String);

impl SearchQuery {
    pub fn new(value: String) -> (r: Self)
        ensures
            r.0@ == value@,
    {
        SearchQuery(value)
    }

    /// The query text.
    pub fn as_str(&self) -> (r: &str)
        ensures
            r@ == self.0@,
    {
        self.0.as_str()
    }
}

impl std::ops::Deref for SearchQuery {
    type Target = String;

    fn deref(&self) -> &String {
        &self.0
    }
}

impl ExternalText for SearchQuery {
    open spec fn cleaned_from(&self, r: &Self) -> bool {
        r.0@ == cleaned_query(self.0@)
    }

    fn cleaned(&self) -> (r: Self) {
        let t = trim(self.0.as_str());
        let l = lowercase(t.as_str());
        SearchQuery(strip_punctuation(l.as_str()))
    }
}

/// A product as the store lists it.
#[derive(Debug, Clone, PartialEq, Eq)]
pub struct DatabaseProduct {
    pub name: String,
    pub id: u32,
}

} // verus!
