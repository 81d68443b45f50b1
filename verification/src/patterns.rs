//! Regular expressions, as the `regex` crate matches them.

use vstd::prelude::*;
use vstd::string::StringSliceAdditionalSpecFns;

verus! {

/// One match of a regular expression: the byte offset at which it starts in
/// the text searched, and the text of each capture group, group 0 being the
/// whole match; `None` for a group that took no part in the match.
#[derive(Debug)]
pub struct Capture {
    pub start: usize,
    pub groups: Vec<Option<String>>,
}

/// The value of a [`Capture`].
pub struct CaptureView {
    pub start: int,
    pub groups: Seq<Option<Seq<char>>>,
}

impl View for Capture {
    type V = CaptureView;

    open spec fn view(&self) -> CaptureView {
        CaptureView {
            start: self.start as int,
            groups: Seq::new(self.groups@.len(), |i: int| crate::dup::opt_view(self.groups@[i])),
        }
    }
}

/// The successive non-overlapping matches of the regular expression
/// `pattern` in `haystack`, leftmost first, each as the byte offset of its
/// start and the texts of its capture groups; `None` if `pattern` is no
/// regular expression that `regex` accepts.
pub uninterp spec fn regex_captures(pattern: Seq<char>, haystack: Seq<char>) -> Option<
    Seq<(int, Seq<Option<Seq<char>>>)>,
>;

/// The matches as pairs.
pub open spec fn capture_pairs(cs: Seq<Capture>) -> Seq<(int, Seq<Option<Seq<char>>>)> {
    Seq::new(cs.len(), |i: int| (cs[i]@.start, cs[i]@.groups))
}

/// `regex::Regex::new` followed by `Regex::captures_iter`, with
/// `Match::start` of group 0 and `Match::as_str` of every group. What
/// matches depends on the pattern and the text alone. As `regex` documents,
/// every match has its group 0, which is never `None`, and starts inside the
/// text. A pattern that does not compile gives `None`.
#[verifier::external_body]
pub(crate) fn captures_of(pattern: &str, haystack: &str) -> (r: Option<Vec<Capture>>)
    ensures
        match r {
            Some(cs) => regex_captures(pattern@, haystack@) == Some(capture_pairs(cs@)),
            None => regex_captures(pattern@, haystack@) is None,
        },
        r matches Some(cs) ==> forall|i: int|
            0 <= i < cs.len() ==> (#[trigger] cs[i]).groups.len() >= 1 && cs[i].groups[0] is Some
                && cs[i].start <= haystack.spec_bytes().len(),
{
    let re = match regex::Regex::new(pattern) {
        Ok(re) => re,
        Err(_) => return None,
    };
    Some(
        re.captures_iter(haystack).map(|c| Capture {
            start: c.get(0).map_or(0, |m| m.start()),
            groups: c.iter().map(|g| g.map(|m| m.as_str().to_string())).collect(),
        }).collect(),
    )
}

/// A byte that continues the UTF-8 encoding of a character.
pub open spec fn is_continuation(b: u8) -> bool {
    0x80 <= b < 0xC0
}

/// Number of characters that begin among the first `off` bytes.
pub open spec fn chars_before(bytes: Seq<u8>, off: int) -> nat
    decreases off,
{
    if off <= 0 || off > bytes.len() {
        0
    } else {
        chars_before(bytes, off - 1) + if is_continuation(bytes[off - 1]) {
            0nat
        } else {
            1nat
        }
    }
}

/// The index of the character that begins at the byte offset `off` of
/// `text`: the number of characters that begin before it.
pub(crate) fn char_offset(text: &str, off: usize) -> (r: usize)
    requires
        off <= text.spec_bytes().len(),
    ensures
        r == chars_before(text.spec_bytes(), off as int),
        r <= off,
{
    let bytes = text.as_bytes();
    let mut n: usize = 0;
    let mut i: usize = 0;
    while i < off
        invariant
            i <= off <= bytes@.len(),
            bytes@ == text.spec_bytes(),
            n == chars_before(bytes@, i as int),
            n <= i,
        decreases off - i,
    {
        let b = bytes[i];
        if !(0x80 <= b && b < 0xC0) {
            n += 1;
        }
        i += 1;
    }
    n
}

} // verus!
