//! The version model: dotted three-component release identifiers parsed out
//! of arbitrary surrounding text, and the errors the parser can report.
//!
//! The parser scans for the first ASCII digit and discards everything before
//! it, so filenames such as `linux-6.5.3.tar.xz` or tags such as `v6.5.3`
//! are accepted. The remainder is split on `.`: major and minor are
//! mandatory and must start with a digit run; the patch component defaults
//! to `0` when it is absent or unparsable.

use crate::text::{
    head_until, is_digit_byte, parse_u32_prefix, spec_parse_u32_prefix, split_at_byte, tail_after,
};
use vstd::prelude::*;

verus! {

/// A parsed release identifier, ordered lexicographically on
/// (major, minor, patch).
#[derive(Clone, Copy, Debug, PartialEq, Eq, Structural)]
pub struct LinuxVersion {
    pub major: u32,
    pub minor: u32,
    pub patch: u32,
}

impl Default for LinuxVersion {
    /// The all-zero version.
    fn default() -> (v: Self)
        ensures
            v == (LinuxVersion { major: 0, minor: 0, patch: 0 }),
    {
        LinuxVersion { major: 0, minor: 0, patch: 0 }
    }
}

/// The component a parse error is about.
#[derive(Clone, Copy, Debug, PartialEq, Eq, Structural)]
pub enum VersionComponent {
    Major,
    Minor,
}

/// Why a version failed to parse: a mandatory component was missing from
/// the dotted identifier, or present but not a non-negative integer.
#[derive(Clone, Copy, Debug, PartialEq, Eq, Structural)]
pub enum ParseError {
    MissingComponent(VersionComponent),
    InvalidInteger(VersionComponent),
}

/// Index of the first ASCII digit in `s`, if any.
pub open spec fn first_digit_index(s: Seq<u8>) -> Option<int>
    decreases s.len(),
{
    if s.len() == 0 {
        None
    } else if is_digit_byte(s[0]) {
        Some(0)
    } else {
        match first_digit_index(s.drop_first()) {
            None => None,
            Some(i) => Some(1 + i),
        }
    }
}

pub proof fn lemma_first_digit_index_is(s: Seq<u8>, i: int)
    requires
        0 <= i < s.len(),
        is_digit_byte(s[i]),
        forall|j: int| 0 <= j < i ==> !is_digit_byte(#[trigger] s[j]),
    ensures
        first_digit_index(s) == Some(i),
    decreases s.len(),
{
    if i == 0 {
    } else {
        assert forall|j: int| 0 <= j < i - 1 implies !is_digit_byte(
            #[trigger] s.drop_first()[j],
        ) by {
            assert(s.drop_first()[j] == s[j + 1]);
        }
        assert(s.drop_first()[i - 1] == s[i]);
        lemma_first_digit_index_is(s.drop_first(), i - 1);
    }
}

pub proof fn lemma_first_digit_index_none(s: Seq<u8>)
    requires
        forall|j: int| 0 <= j < s.len() ==> !is_digit_byte(#[trigger] s[j]),
    ensures
        first_digit_index(s) is None,
    decreases s.len(),
{
    if s.len() > 0 {
        assert forall|j: int| 0 <= j < s.drop_first().len() implies !is_digit_byte(
            #[trigger] s.drop_first()[j],
        ) by {
            assert(s.drop_first()[j] == s[j + 1]);
        }
        lemma_first_digit_index_none(s.drop_first());
    }
}

pub proof fn lemma_first_digit_index_bounds(s: Seq<u8>)
    ensures
        match first_digit_index(s) {
            Some(i) => 0 <= i < s.len() && is_digit_byte(s[i]),
            None => true,
        },
    decreases s.len(),
{
    if s.len() > 0 && !is_digit_byte(s[0]) {
        lemma_first_digit_index_bounds(s.drop_first());
    }
}

/// The text the dotted identifier is read from: everything from the first
/// ASCII digit on, or all of `s` when it holds no digit.
pub open spec fn version_remainder(s: Seq<u8>) -> Seq<u8> {
    match first_digit_index(s) {
        Some(p) => s.skip(p),
        None => s,
    }
}

/// What `version_from_str` returns on the UTF-8 bytes `s`: scan to the
/// first digit, split on `.`; minor must be present (else the minor
/// component is missing); major and minor must start with a digit run
/// whose value fits a `u32` (else that component is not a valid integer);
/// a patch that is absent or unparsable is `0`.
pub open spec fn spec_parse_version(s: Seq<u8>) -> Result<LinuxVersion, ParseError> {
    let rem = version_remainder(s);
    match tail_after(rem, 46) {
        None => Err(ParseError::MissingComponent(VersionComponent::Minor)),
        Some(t1) => match spec_parse_u32_prefix(head_until(rem, 46)) {
            None => Err(ParseError::InvalidInteger(VersionComponent::Major)),
            Some(major) => match spec_parse_u32_prefix(head_until(t1, 46)) {
                None => Err(ParseError::InvalidInteger(VersionComponent::Minor)),
                Some(minor) => {
                    let patch = match tail_after(t1, 46) {
                        None => 0u32,
                        Some(t2) => match spec_parse_u32_prefix(head_until(t2, 46)) {
                            None => 0u32,
                            Some(p) => p,
                        },
                    };
                    Ok(LinuxVersion { major, minor, patch })
                },
            },
        },
    }
}

/// Everything before the first ASCII digit is discarded: a text parses
/// exactly as its remainder from the first digit does, so a version
/// embedded in a filename or behind a tag prefix parses as the bare
/// version would.
pub proof fn lemma_surrounding_text_discarded(s: Seq<u8>)
    ensures
        spec_parse_version(s) == spec_parse_version(version_remainder(s)),
{
    lemma_first_digit_index_bounds(s);
    match first_digit_index(s) {
        None => {},
        Some(p) => {
            let rem = s.skip(p);
            assert(rem[0] == s[p]);
            lemma_first_digit_index_is(rem, 0);
            assert(rem.skip(0) =~= rem);
        },
    }
}

/// `spec_parse_version` over a text's UTF-8 encoding.
pub open spec fn spec_version_of_text(t: Seq<char>) -> Result<LinuxVersion, ParseError> {
    spec_parse_version(vstd::utf8::encode_utf8(t))
}

/// Parses a dotted release identifier out of the byte text `s`.
pub fn version_from_bytes(s: &[u8]) -> (r: Result<LinuxVersion, ParseError>)
    ensures
        r == spec_parse_version(s@),
{
    let n: usize = s.len();
    let mut p: usize = 0;
    while p < n && (s[p] < 48 || s[p] > 57)
        invariant
            0 <= p <= n,
            n == s@.len(),
            forall|j: int| 0 <= j < p ==> !is_digit_byte(#[trigger] s@[j]),
        decreases n - p,
    {
        p = p + 1;
    }
    let start: usize = if p < n {
        proof {
            lemma_first_digit_index_is(s@, p as int);
        }
        p
    } else {
        proof {
            lemma_first_digit_index_none(s@);
        }
        0
    };
    let rem: &[u8] = &s[start..n];
    proof {
        if first_digit_index(s@) is None {
            assert(s@.skip(0) =~= s@);
        }
        assert(rem@ == version_remainder(s@));
    }
    let (major_seg, rest1) = split_at_byte(rem, 46);
    match rest1 {
        None => Err(ParseError::MissingComponent(VersionComponent::Minor)),
        Some(t1) => {
            let (minor_seg, rest2) = split_at_byte(t1, 46);
            match parse_u32_prefix(major_seg) {
                None => Err(ParseError::InvalidInteger(VersionComponent::Major)),
                Some(major) => match parse_u32_prefix(minor_seg) {
                    None => Err(ParseError::InvalidInteger(VersionComponent::Minor)),
                    Some(minor) => {
                        let patch: u32 = match rest2 {
                            None => 0,
                            Some(t2) => {
                                let (patch_seg, _rest3) = split_at_byte(t2, 46);
                                match parse_u32_prefix(patch_seg) {
                                    None => 0,
                                    Some(pv) => pv,
                                }
                            },
                        };
                        Ok(LinuxVersion { major, minor, patch })
                    },
                },
            }
        },
    }
}

/// Parses a dotted release identifier out of `s`, accepting surrounding
/// text such as a filename or a `v` tag prefix.
pub fn version_from_str(s: &str) -> (r: Result<LinuxVersion, ParseError>)
    ensures
        r == spec_version_of_text(s@),
{
    version_from_bytes(s.as_bytes())
}

} // verus!
