//! Usernames: what a valid one is, and the validation a newly connected peer
//! goes through before it may enter the room.

use vstd::prelude::*;
use vstd::utf8::*;

verus! {

/// Sent to a peer whose username is empty or longer than [`MAX_USERNAME_LEN`] bytes.
pub const TOO_SHORT_OR_LONG: &'static str = "username too short or too long, bye.\n";

/// Sent to a peer whose username holds anything but ASCII letters and digits.
pub const INVALID_SEQUENCE: &'static str = "username contains invalid sequence, bye.\n";

/// The longest username, in bytes.
pub const MAX_USERNAME_LEN: usize = 64;

/// The characters with the Unicode property `White_Space`.
pub open spec fn is_white_space(c: char) -> bool {
    ||| '\u{9}' <= c <= '\u{d}'
    ||| c == ' '
    ||| c == '\u{85}'
    ||| c == '\u{a0}'
    ||| c == '\u{1680}'
    ||| '\u{2000}' <= c <= '\u{200a}'
    ||| c == '\u{2028}'
    ||| c == '\u{2029}'
    ||| c == '\u{202f}'
    ||| c == '\u{205f}'
    ||| c == '\u{3000}'
}

/// ASCII letters and digits.
pub open spec fn is_alphanumeric(c: char) -> bool {
    ||| 'a' <= c <= 'z'
    ||| 'A' <= c <= 'Z'
    ||| '0' <= c <= '9'
}

/// `s` without its leading white space.
pub open spec fn trim_start(s: Seq<char>) -> Seq<char>
    decreases s.len(),
{
    if s.len() > 0 && is_white_space(s.first()) {
        trim_start(s.drop_first())
    } else {
        s
    }
}

/// `s` without its trailing white space.
pub open spec fn trim_end(s: Seq<char>) -> Seq<char>
    decreases s.len(),
{
    if s.len() > 0 && is_white_space(s.last()) {
        trim_end(s.drop_last())
    } else {
        s
    }
}

/// `s` without its leading and trailing white space.
pub open spec fn trimmed(s: Seq<char>) -> Seq<char> {
    trim_end(trim_start(s))
}

/// Every character of `s` is white space.
pub open spec fn all_white_space(s: Seq<char>) -> bool {
    forall|i: int| 0 <= i < s.len() ==> is_white_space(#[trigger] s[i])
}

/// Every character of `s` is an ASCII letter or digit.
pub open spec fn all_alphanumeric(s: Seq<char>) -> bool {
    forall|i: int| 0 <= i < s.len() ==> is_alphanumeric(#[trigger] s[i])
}

/// A valid username has 1 to 64 characters, each an ASCII letter or digit.
pub open spec fn valid_username(name: Seq<char>) -> bool {
    &&& 1 <= name.len() <= MAX_USERNAME_LEN
    &&& all_alphanumeric(name)
}

/// Why a candidate username is turned down.
#[derive(Clone, Copy, Debug, PartialEq, Eq, Structural)]
pub enum InvalidUsername {
    /// Empty, or longer than 64 bytes.
    TooShortOrLong,
    /// Within the length limits, but not purely ASCII letters and digits.
    InvalidSequence,
}

/// The verdict on an already trimmed candidate: the length is looked at
/// first, in bytes of UTF-8, and the characters only if the length is fine.
pub open spec fn fault(name: Seq<char>) -> Option<InvalidUsername> {
    if encode_utf8(name).len() < 1 || encode_utf8(name).len() > MAX_USERNAME_LEN {
        Some(InvalidUsername::TooShortOrLong)
    } else if !all_alphanumeric(name) {
        Some(InvalidUsername::InvalidSequence)
    } else {
        None
    }
}

/// `str::trim` of std: the slice without leading and trailing characters
/// that have the property `White_Space`. Believed, not proved.
pub assume_specification<'a>[ str::trim ](s: &'a str) -> (r: &'a str)
    ensures
        r@ == trimmed(s@),
;

/// `char::is_ascii_alphanumeric` of std: true exactly for `a..=z`, `A..=Z`
/// and `0..=9`. Believed, not proved.
pub assume_specification[ char::is_ascii_alphanumeric ](c: &char) -> (b: bool)
    ensures
        b == is_alphanumeric(*c),
;

impl InvalidUsername {
    /// The line sent to the peer before its connection is dropped.
    pub fn message(&self) -> (text: &'static str)
        ensures
            text@ == match *self {
                InvalidUsername::TooShortOrLong => TOO_SHORT_OR_LONG@,
                InvalidUsername::InvalidSequence => INVALID_SEQUENCE@,
            },
    {
        match self {
            InvalidUsername::TooShortOrLong => TOO_SHORT_OR_LONG,
            InvalidUsername::InvalidSequence => INVALID_SEQUENCE,
        }
    }
}

/// A validated username. Once made it never changes.
#[derive(Debug)]
pub struct Username {
    text: String,
}

impl View for Username {
    type V = Seq<char>;

    closed spec fn view(&self) -> Seq<char> {
        self.text@
    }
}

impl Username {
    /// Holds of every username there is.
    #[verifier::type_invariant]
    pub closed spec fn well_formed(self) -> bool {
        valid_username(self.text@)
    }

    /// What being well formed means.
    pub proof fn lemma_well_formed(self)
        requires
            self.well_formed(),
        ensures
            valid_username(self@),
    {
    }

    /// The name as text.
    pub fn as_str(&self) -> (s: &str)
        ensures
            s@ == self@,
            valid_username(s@),
    {
        proof {
            use_type_invariant(self);
        }
        self.text.as_str()
    }

    /// Whether two usernames are the same text.
    pub fn same(&self, other: &Username) -> (b: bool)
        ensures
            b == (self@ == other@),
    {
        self.text == other.text
    }
}

impl Clone for Username {
    fn clone(&self) -> (copy: Self)
        ensures
            copy@ == self@,
    {
        proof {
            use_type_invariant(self);
        }
        Username { text: self.text.clone() }
    }
}

/// The UTF-8 encoding of a text has at least one byte per character.
pub proof fn lemma_encoding_at_least_as_long(s: Seq<char>)
    ensures
        encode_utf8(s).len() >= s.len(),
    decreases s.len(),
{
    if s.len() > 0 {
        lemma_encoding_at_least_as_long(s.drop_first());
    }
}

/// Letters and digits are ASCII, so a purely alphanumeric text takes one
/// byte per character.
pub proof fn lemma_alphanumeric_one_byte_each(s: Seq<char>)
    requires
        all_alphanumeric(s),
    ensures
        encode_utf8(s).len() == s.len(),
{
    assert(is_ascii_chars(s)) by {
        assert forall|i: int| 0 <= i < s.len() implies '\0' <= #[trigger] s[i] <= '\u{7f}' by {
            assert(is_alphanumeric(s[i]));
        }
    }
    is_ascii_chars_encode_utf8(s);
}

/// A trimmed candidate passes exactly when it is a valid username.
pub proof fn lemma_fault_free_iff_valid(name: Seq<char>)
    ensures
        fault(name) is None <==> valid_username(name),
{
    if all_alphanumeric(name) {
        lemma_alphanumeric_one_byte_each(name);
    }
}

/// White space in front of a text that does not begin with any is trimmed
/// away, all of it and nothing more.
pub proof fn lemma_trim_start_strips_padding(padding: Seq<char>, rest: Seq<char>)
    requires
        all_white_space(padding),
        rest.len() > 0 ==> !is_white_space(rest.first()),
    ensures
        trim_start(padding + rest) == rest,
    decreases padding.len(),
{
    if padding.len() == 0 {
        assert(padding + rest == rest);
    } else {
        assert((padding + rest).first() == padding[0]);
        assert((padding + rest).drop_first() == padding.drop_first() + rest);
        assert forall|i: int| 0 <= i < padding.drop_first().len() implies is_white_space(
            #[trigger] padding.drop_first()[i],
        ) by {
            assert(padding.drop_first()[i] == padding[i + 1]);
        }
        lemma_trim_start_strips_padding(padding.drop_first(), rest);
    }
}

/// White space behind a text that does not end in any is trimmed away, all
/// of it and nothing more.
pub proof fn lemma_trim_end_strips_padding(rest: Seq<char>, padding: Seq<char>)
    requires
        all_white_space(padding),
        rest.len() > 0 ==> !is_white_space(rest.last()),
    ensures
        trim_end(rest + padding) == rest,
    decreases padding.len(),
{
    if padding.len() == 0 {
        assert(rest + padding == rest);
    } else {
        assert((rest + padding).last() == padding.last());
        assert((rest + padding).drop_last() == rest + padding.drop_last());
        assert forall|i: int| 0 <= i < padding.drop_last().len() implies is_white_space(
            #[trigger] padding.drop_last()[i],
        ) by {
            assert(padding.drop_last()[i] == padding[i]);
        }
        lemma_trim_end_strips_padding(rest, padding.drop_last());
    }
}

/// A valid username comes out of trimming as it is, whatever white space
/// surrounds it: the line ending the peer sent it with, for one.
pub proof fn lemma_trim_finds_username(before: Seq<char>, name: Seq<char>, after: Seq<char>)
    requires
        valid_username(name),
        all_white_space(before),
        all_white_space(after),
    ensures
        trimmed(before + name + after) == name,
        trimmed(name) == name,
{
    assert(is_alphanumeric(name[0]));
    assert(is_alphanumeric(name[name.len() - 1]));
    assert(before + name + after == before + (name + after));
    lemma_trim_start_strips_padding(before, name + after);
    lemma_trim_end_strips_padding(name, after);
    assert(trim_start(name) == name);
    assert(trim_end(name) == name);
}

/// A candidate that trims to nothing, or to more than 64 characters, is
/// turned down for its length, whatever its characters are.
pub proof fn lemma_bad_length_is_rejected(name: Seq<char>)
    requires
        name.len() == 0 || name.len() > MAX_USERNAME_LEN,
    ensures
        fault(name) == Some(InvalidUsername::TooShortOrLong),
{
    lemma_encoding_at_least_as_long(name);
}

/// Validates what a peer answered to the welcome prompt.
///
/// The candidate is trimmed of surrounding white space. It is accepted if
/// what remains is a valid username, and that is then the username.
/// Otherwise the result says why not: its length is judged first, its
/// characters second.
pub fn welcome(candidate: &str) -> (r: Result<Username, InvalidUsername>)
    ensures
        r is Ok <==> valid_username(trimmed(candidate@)),
        match r {
            Ok(username) => username@ == trimmed(candidate@),
            Err(e) => fault(trimmed(candidate@)) == Some(e),
        },
{
    let username = candidate.trim();
    proof {
        lemma_fault_free_iff_valid(username@);
    }
    let len = username.as_bytes().len();
    if len < 1 || len > MAX_USERNAME_LEN {
        return Err(InvalidUsername::TooShortOrLong);
    }
    let mut clean = true;
    for c in it: username.chars()
        invariant
            it.seq() == username@,
            clean <==> forall|i: int| 0 <= i < it.index() ==> is_alphanumeric(#[trigger] username@[i]),
    {
        if !c.is_ascii_alphanumeric() {
            clean = false;
        }
    }
    if !clean {
        return Err(InvalidUsername::InvalidSequence);
    }
    Ok(Username { text: username.to_owned() })
}

} // verus!
