//! Versions as text: `major.minor.patch`, then `-pre<counter>` for a
//! pre-release. A tag carries a `v` in front of that text.
//!
//! Each version has one text and each such text one version, so reading what
//! was written gives back the version.

use crate::decimal::{
    decimal, is_digit, lemma_decimal_is_numeral, lemma_decimal_injective,
    lemma_numeral_at_unique, numeral_at, push_decimal, read_decimal,
};
use crate::error::ParseError;
use crate::version::{PrereleaseTag, Version};
use substring::Substring;
use vstd::prelude::*;
use vstd::string::{StrSliceExecFns, StringExecFns};

verus! {

/// The characters of `s` from index `start` up to `end`, both cut back to the
/// length of `s`; nothing where `end` is not behind `start`.
spec fn char_window(s: Seq<char>, start: int, end: int) -> Seq<char> {
    if end <= start {
        Seq::empty()
    } else {
        let from = if start < s.len() { start } else { s.len() as int };
        let to = if end < s.len() { end } else { s.len() as int };
        s.subrange(from, to)
    }
}

/// The text `refs/tags/`, which stands before a tag's name in its reference.
pub open spec fn tag_ref_prefix() -> Seq<char> {
    seq!['r', 'e', 'f', 's', '/', 't', 'a', 'g', 's', '/']
}

impl PrereleaseTag {
    /// The text of this mark: `pre` and the numeral of the counter.
    pub open spec fn label(self) -> Seq<char> {
        seq!['p', 'r', 'e'] + decimal(self.counter as nat)
    }

    /// The counter of the mark that `label` is the text of, or `Malformed`
    /// where it is the text of none.
    pub open spec fn decoded(label: Seq<char>) -> Result<u32, ParseError> {
        if exists|tag: PrereleaseTag| tag.label() == label {
            Ok((choose|tag: PrereleaseTag| tag.label() == label).counter)
        } else {
            Err(ParseError::Malformed)
        }
    }
}

impl Version {
    /// The text of this version.
    pub open spec fn text(self) -> Seq<char> {
        decimal(self.major as nat) + seq!['.'] + decimal(self.minor as nat) + seq!['.'] + decimal(
            self.patch as nat,
        ) + match self.prerelease {
            None => Seq::empty(),
            Some(tag) => seq!['-'] + tag.label(),
        }
    }

    /// The name of this version's tag: `v` and the text.
    pub open spec fn tag_name(self) -> Seq<char> {
        seq!['v'] + self.text()
    }

    /// Whether `name` names this version, as its text or as its tag's name.
    pub open spec fn named_by(self, name: Seq<char>) -> bool {
        name == self.text() || name == self.tag_name()
    }

    /// The version that `name` names, or `Malformed` where it names none.
    pub open spec fn parsed(name: Seq<char>) -> Result<Version, ParseError> {
        if exists|v: Version| v.named_by(name) {
            Ok(choose|v: Version| v.named_by(name))
        } else {
            Err(ParseError::Malformed)
        }
    }

    /// Where the numeral of `major` ends in the text.
    spec fn major_end(self) -> int {
        decimal(self.major as nat).len() as int
    }

    /// Where the numeral of `minor` ends in the text.
    spec fn minor_end(self) -> int {
        self.major_end() + 1 + decimal(self.minor as nat).len()
    }

    /// Where the numeral of `patch` ends in the text.
    spec fn patch_end(self) -> int {
        self.minor_end() + 1 + decimal(self.patch as nat).len()
    }
}

/// Whether `s` begins with three numerals, a `.` between them, that end at
/// `end`.
spec fn triple_at(s: Seq<char>, major: u64, minor: u64, patch: u64, end: int) -> bool {
    let probe = Version { major, minor, patch, prerelease: None };
    &&& end == probe.patch_end()
    &&& numeral_at(s, 0, probe.major_end(), major as nat)
    &&& probe.major_end() < s.len()
    &&& s[probe.major_end()] == '.'
    &&& numeral_at(s, probe.major_end() + 1, probe.minor_end(), minor as nat)
    &&& probe.minor_end() < s.len()
    &&& s[probe.minor_end()] == '.'
    &&& numeral_at(s, probe.minor_end() + 1, probe.patch_end(), patch as nat)
}

/// Whether `s` holds the label of `tag` from `start` to its end.
spec fn label_at(s: Seq<char>, start: int, tag: PrereleaseTag) -> bool {
    &&& 0 <= start
    &&& start + 3 < s.len()
    &&& s[start] == 'p'
    &&& s[start + 1] == 'r'
    &&& s[start + 2] == 'e'
    &&& numeral_at(s, start + 3, s.len() as int, tag.counter as nat)
}

/// How the text of a version is laid out.
proof fn lemma_text_layout(v: Version)
    ensures
        triple_at(v.text(), v.major, v.minor, v.patch, v.patch_end()),
        v.prerelease is None ==> v.patch_end() == v.text().len(),
        v.prerelease matches Some(tag) ==> {
            &&& v.patch_end() < v.text().len()
            &&& v.text()[v.patch_end()] == '-'
            &&& label_at(v.text(), v.patch_end() + 1, tag)
        },
{
    let t = v.text();
    let major = decimal(v.major as nat);
    let minor = decimal(v.minor as nat);
    let patch = decimal(v.patch as nat);
    assert(t.subrange(0, v.major_end()) =~= major);
    assert(t.subrange(v.major_end() + 1, v.minor_end()) =~= minor);
    assert(t.subrange(v.minor_end() + 1, v.patch_end()) =~= patch);
    match v.prerelease {
        None => {},
        Some(tag) => {
            assert(t.subrange(v.patch_end() + 4, t.len() as int) =~= decimal(tag.counter as nat));
        },
    }
}

/// A text begins with at most one triple of numerals.
proof fn lemma_triple_unique(
    s: Seq<char>,
    major1: u64,
    minor1: u64,
    patch1: u64,
    end1: int,
    major2: u64,
    minor2: u64,
    patch2: u64,
    end2: int,
)
    requires
        triple_at(s, major1, minor1, patch1, end1),
        triple_at(s, major2, minor2, patch2, end2),
    ensures
        major1 == major2,
        minor1 == minor2,
        patch1 == patch2,
        end1 == end2,
{
    let first = Version { major: major1, minor: minor1, patch: patch1, prerelease: None };
    let second = Version { major: major2, minor: minor2, patch: patch2, prerelease: None };
    lemma_numeral_at_unique(s, 0, first.major_end(), major1 as nat, second.major_end(), major2 as nat);
    lemma_numeral_at_unique(
        s,
        first.major_end() + 1,
        first.minor_end(),
        minor1 as nat,
        second.minor_end(),
        minor2 as nat,
    );
    lemma_numeral_at_unique(
        s,
        first.minor_end() + 1,
        first.patch_end(),
        patch1 as nat,
        second.patch_end(),
        patch2 as nat,
    );
}

/// Two versions with the same text are the same version.
pub proof fn lemma_text_injective(a: Version, b: Version)
    requires
        a.text() == b.text(),
    ensures
        a == b,
{
    let t = a.text();
    lemma_text_layout(a);
    lemma_text_layout(b);
    lemma_triple_unique(
        t,
        a.major,
        a.minor,
        a.patch,
        a.patch_end(),
        b.major,
        b.minor,
        b.patch,
        b.patch_end(),
    );
    match (a.prerelease, b.prerelease) {
        (Some(mine), Some(theirs)) => {
            lemma_numeral_at_unique(
                t,
                a.patch_end() + 4,
                t.len() as int,
                mine.counter as nat,
                t.len() as int,
                theirs.counter as nat,
            );
        },
        _ => {},
    }
}

/// `substring::Substring::substring` on a `str`: the characters from index
/// `start` up to `end`, counted in characters, where an index beyond the text
/// stands for its end; the empty text where `end` is not behind `start`.
#[verifier::external_body]
fn char_range(text: &str, start: usize, end: usize) -> (piece: &str)
    ensures
        piece@ == char_window(text@, start as int, end as int),
{
    text.substring(start, end)
}

/// The characters of `text`, one by one.
fn chars_of(text: &str) -> (chars: Vec<char>)
    ensures
        chars@ == text@,
{
    let mut chars: Vec<char> = Vec::new();
    for c in it: text.chars()
        invariant
            it.seq() == text@,
            chars@ == it.seq().take(it.index()),
    {
        chars.push(c);
        proof {
            assert(it.seq().take(it.index() + 1) =~= it.seq().take(it.index()).push(c));
        }
    }
    proof {
        assert(chars@ =~= text@);
    }
    chars
}

/// Takes the `v` of a tag's name off the front of `name`, where it has one.
fn strip_tag_prefix(name: &str) -> (text: &str)
    ensures
        text@ == if name@.len() > 0 && name@[0] == 'v' {
            name@.skip(1)
        } else {
            name@
        },
{
    let len = name.unicode_len();
    if len > 0 && name.get_char(0) == 'v' {
        char_range(name, 1, len)
    } else {
        name
    }
}

/// Reads the three numerals at the front of `s`.
fn read_triple(s: &[char]) -> (r: Option<(u64, u64, u64, usize)>)
    ensures
        match r {
            Some((major, minor, patch, end)) => triple_at(s@, major, minor, patch, end as int),
            None => forall|major: u64, minor: u64, patch: u64, end: int|
                !triple_at(s@, major, minor, patch, end),
        },
{
    let len = s.len();
    let (major, major_end) = match read_decimal(s, 0) {
        Some(found) => found,
        None => {
            return None;
        },
    };
    proof {
        assert forall|major2: u64, minor2: u64, patch2: u64, end2: int|
            triple_at(s@, major2, minor2, patch2, end2) implies major2 == major && (Version {
            major: major2,
            minor: minor2,
            patch: patch2,
            prerelease: None,
        }).major_end() == major_end by {
            let probe = Version { major: major2, minor: minor2, patch: patch2, prerelease: None };
            lemma_numeral_at_unique(
                s@,
                0,
                major_end as int,
                major as nat,
                probe.major_end(),
                major2 as nat,
            );
        }
    }
    if major_end >= len || s[major_end] != '.' {
        return None;
    }
    let (minor, minor_end) = match read_decimal(s, major_end + 1) {
        Some(found) => found,
        None => {
            return None;
        },
    };
    proof {
        assert forall|major2: u64, minor2: u64, patch2: u64, end2: int|
            triple_at(s@, major2, minor2, patch2, end2) implies minor2 == minor && (Version {
            major: major2,
            minor: minor2,
            patch: patch2,
            prerelease: None,
        }).minor_end() == minor_end by {
            let probe = Version { major: major2, minor: minor2, patch: patch2, prerelease: None };
            lemma_numeral_at_unique(
                s@,
                major_end + 1,
                minor_end as int,
                minor as nat,
                probe.minor_end(),
                minor2 as nat,
            );
        }
    }
    if minor_end >= len || s[minor_end] != '.' {
        return None;
    }
    let (patch, patch_end) = match read_decimal(s, minor_end + 1) {
        Some(found) => found,
        None => {
            return None;
        },
    };
    proof {
        let probe = Version { major, minor, patch, prerelease: None };
        assert(s@.subrange(0, major_end as int).len() == decimal(major as nat).len());
        assert(s@.subrange(major_end + 1, minor_end as int).len() == decimal(minor as nat).len());
        assert(s@.subrange(minor_end + 1, patch_end as int).len() == decimal(patch as nat).len());
        assert(probe.major_end() == major_end);
        assert(probe.minor_end() == minor_end);
        assert(probe.patch_end() == patch_end);
    }
    Some((major, minor, patch, patch_end))
}

/// Reads the label that fills `s` from `start` to its end.
fn read_label(s: &[char], start: usize) -> (r: Option<u32>)
    requires
        start <= s@.len(),
    ensures
        match r {
            Some(counter) => label_at(s@, start as int, PrereleaseTag { counter }),
            None => forall|tag: PrereleaseTag| !label_at(s@, start as int, tag),
        },
{
    let len = s.len();
    if len - start < 4 || s[start] != 'p' || s[start + 1] != 'r' || s[start + 2] != 'e' {
        return None;
    }
    match read_decimal(s, start + 3) {
        Some((counter, end)) => {
            if end == len && counter <= u32::MAX as u64 {
                Some(counter as u32)
            } else {
                proof {
                    assert forall|tag: PrereleaseTag| !label_at(s@, start as int, tag) by {
                        if label_at(s@, start as int, tag) {
                            lemma_numeral_at_unique(
                                s@,
                                start + 3,
                                end as int,
                                counter as nat,
                                len as int,
                                tag.counter as nat,
                            );
                        }
                    }
                }
                None
            }
        },
        None => None,
    }
}

/// Reads `s` as the text of a version.
fn read_version(s: &[char]) -> (r: Option<Version>)
    ensures
        match r {
            Some(v) => s@ == v.text(),
            None => forall|v: Version| s@ != v.text(),
        },
{
    let len = s.len();
    let (major, minor, patch, end) = match read_triple(s) {
        Some(found) => found,
        None => {
            proof {
                assert forall|v: Version| s@ != v.text() by {
                    lemma_text_layout(v);
                }
            }
            return None;
        },
    };
    let release = Version { major, minor, patch, prerelease: None };
    proof {
        assert forall|v: Version| s@ == v.text() implies v.major == major && v.minor == minor
            && v.patch == patch && v.patch_end() == end by {
            lemma_text_layout(v);
            lemma_triple_unique(
                s@,
                major,
                minor,
                patch,
                end as int,
                v.major,
                v.minor,
                v.patch,
                v.patch_end(),
            );
        }
    }
    if end == len {
        proof {
            assert(s@.subrange(0, end as int) =~= s@);
        }
        return Some(release);
    }
    if s[end] != '-' {
        proof {
            assert forall|v: Version| s@ != v.text() by {
                lemma_text_layout(v);
            }
        }
        return None;
    }
    match read_label(s, end + 1) {
        Some(counter) => {
            let found = Version { major, minor, patch, prerelease: Some(PrereleaseTag { counter }) };
            proof {
                let tag = PrereleaseTag { counter };
                assert(s@.subrange(end + 1, len as int) =~= tag.label());
                assert(s@ =~= s@.subrange(0, end as int) + seq!['-'] + s@.subrange(
                    end + 1,
                    len as int,
                ));
                assert(found.text() =~= release.text() + seq!['-'] + tag.label());
            }
            Some(found)
        },
        None => {
            proof {
                assert forall|v: Version| s@ != v.text() by {
                    lemma_text_layout(v);
                }
            }
            None
        },
    }
}

impl PrereleaseTag {
    /// Reads a label: `Ok` with the counter where `label` is the text of the
    /// mark with that counter, and `Malformed` where it is the text of none.
    pub fn decode(label: &str) -> (r: Result<u32, ParseError>)
        ensures
            r == PrereleaseTag::decoded(label@),
            match r {
                Ok(counter) => label@ == (PrereleaseTag { counter }).label(),
                Err(e) => e == ParseError::Malformed && forall|tag: PrereleaseTag|
                    label@ != tag.label(),
            },
    {
        let chars = chars_of(label);
        match read_label(chars.as_slice(), 0) {
            Some(counter) => {
                proof {
                    let tag = PrereleaseTag { counter };
                    assert(label@ =~= seq!['p', 'r', 'e'] + label@.subrange(3, label@.len() as int));
                    assert(tag.label() == label@);
                    lemma_label_injective(tag, choose|other: PrereleaseTag| other.label() == label@);
                }
                Ok(counter)
            },
            None => {
                proof {
                    assert forall|tag: PrereleaseTag| label@ != tag.label() by {
                        if label@ == tag.label() {
                            assert(label@.subrange(3, label@.len() as int) =~= decimal(
                                tag.counter as nat,
                            ));
                            assert(label_at(label@, 0, tag));
                        }
                    }
                }
                Err(ParseError::Malformed)
            },
        }
    }

    /// Writes this mark.
    pub fn to_string(&self) -> (label: String)
        ensures
            label@ == self.label(),
    {
        let mut label = String::from_str("pre");
        proof {
            reveal_strlit("pre");
        }
        push_decimal(&mut label, self.counter as u64);
        proof {
            assert(label@ =~= self.label());
        }
        label
    }
}

impl Version {
    /// Reads the name of a tag, or the text of a version without the `v`.
    ///
    /// `Ok` with the version that `name` names; `Malformed` where it names
    /// none: anything but `major.minor.patch` with, at most, `-pre<counter>`
    /// behind it, each number written as a numeral that fits its field.
    pub fn parse(name: &str) -> (r: Result<Version, ParseError>)
        ensures
            r == Version::parsed(name@),
            match r {
                Ok(v) => v.named_by(name@),
                Err(e) => e == ParseError::Malformed && forall|v: Version| !v.named_by(name@),
            },
    {
        let text = strip_tag_prefix(name);
        let chars = chars_of(text);
        match read_version(chars.as_slice()) {
            Some(v) => {
                proof {
                    if name@.len() > 0 && name@[0] == 'v' {
                        assert(name@ =~= seq!['v'] + name@.skip(1));
                    }
                    assert(v.named_by(name@));
                    lemma_one_version_per_name(
                        v,
                        choose|other: Version| other.named_by(name@),
                        name@,
                    );
                }
                Ok(v)
            },
            None => {
                proof {
                    assert forall|v: Version| !v.named_by(name@) by {
                        lemma_first_character(v);
                    }
                }
                Err(ParseError::Malformed)
            },
        }
    }

    /// Writes the text of this version, without the `v` of a tag.
    pub fn format(&self) -> (text: String)
        ensures
            text@ == self.text(),
    {
        let mut text = String::new();
        self.write_to(&mut text);
        text
    }

    /// Writes the name of this version's tag.
    pub fn to_string(&self) -> (name: String)
        ensures
            name@ == self.tag_name(),
    {
        let mut name = String::from_str("v");
        proof {
            reveal_strlit("v");
        }
        self.write_to(&mut name);
        proof {
            assert(name@ =~= self.tag_name());
        }
        name
    }

    /// Writes the reference of this version's tag: `refs/tags/` and the
    /// tag's name.
    pub fn git_ref(&self) -> (reference: String)
        ensures
            reference@ == tag_ref_prefix() + self.tag_name(),
    {
        let mut reference = String::from_str("refs/tags/v");
        proof {
            reveal_strlit("refs/tags/v");
        }
        self.write_to(&mut reference);
        proof {
            assert(reference@ =~= tag_ref_prefix() + self.tag_name());
        }
        reference
    }

    /// Writes the text of this version at the end of `out`.
    fn write_to(&self, out: &mut String)
        ensures
            final(out)@ == old(out)@ + self.text(),
    {
        push_decimal(out, self.major);
        out.append(".");
        push_decimal(out, self.minor);
        out.append(".");
        push_decimal(out, self.patch);
        match self.prerelease {
            Some(tag) => {
                out.append("-pre");
                push_decimal(out, tag.counter as u64);
            },
            None => {},
        }
        proof {
            reveal_strlit(".");
            reveal_strlit("-pre");
            assert(out@ =~= old(out)@ + self.text());
        }
    }
}

/// The version that `name` names, where it names one.
pub open spec fn version_named(name: String) -> Option<Version> {
    match Version::parsed(name@) {
        Ok(v) => Some(v),
        Err(_) => None,
    }
}

/// Reads the names of a repository's tags and keeps the versions: a name
/// that names no version is passed over, the others stay in their order.
pub fn read_tags(names: &[String]) -> (versions: Vec<Version>)
    ensures
        versions@ == names@.filter_map(|name: String| version_named(name)),
{
    let ghost named = |name: String| version_named(name);
    let mut versions: Vec<Version> = Vec::new();
    let mut i: usize = 0;
    proof {
        assert(names@.take(0) =~= Seq::<String>::empty());
    }
    while i < names.len()
        invariant
            i <= names@.len(),
            named == |name: String| version_named(name),
            versions@ == names@.take(i as int).filter_map(named),
        decreases names@.len() - i,
    {
        proof {
            names@.lemma_filter_map_take_succ(named, i as int);
        }
        match Version::parse(names[i].as_str()) {
            Ok(v) => {
                versions.push(v);
            },
            Err(_) => {},
        }
        i = i + 1;
    }
    proof {
        assert(names@.take(i as int) =~= names@);
    }
    versions
}

/// A text begins with a digit and a tag's name with `v`, so neither can be
/// taken for the other.
proof fn lemma_first_character(v: Version)
    ensures
        v.text().len() > 0,
        is_digit(v.text()[0]),
        v.tag_name()[0] == 'v',
        v.tag_name().skip(1) == v.text(),
{
    lemma_decimal_is_numeral(v.major as nat);
    assert(v.text()[0] == v.text().subrange(0, v.major_end())[0]);
    assert(v.tag_name().skip(1) =~= v.text());
}

/// Two marks with the same label are the same mark.
pub proof fn lemma_label_injective(a: PrereleaseTag, b: PrereleaseTag)
    requires
        a.label() == b.label(),
    ensures
        a == b,
{
    assert(a.label().skip(3) =~= decimal(a.counter as nat));
    assert(b.label().skip(3) =~= decimal(b.counter as nat));
    lemma_decimal_injective(a.counter as nat, b.counter as nat);
}

/// A name names at most one version.
pub proof fn lemma_one_version_per_name(a: Version, b: Version, name: Seq<char>)
    requires
        a.named_by(name),
        b.named_by(name),
    ensures
        a == b,
{
    lemma_first_character(a);
    lemma_first_character(b);
    lemma_text_injective(a, b);
}

/// Reading what was written gives the version back: the text of `v`, and the
/// name of its tag, are read as `v`.
pub proof fn law_round_trip(v: Version)
    ensures
        Version::parsed(v.text()) == Ok::<Version, ParseError>(v),
        Version::parsed(v.tag_name()) == Ok::<Version, ParseError>(v),
{
    assert(v.named_by(v.text()));
    assert(v.named_by(v.tag_name()));
    lemma_one_version_per_name(v, choose|read: Version| read.named_by(v.text()), v.text());
    lemma_one_version_per_name(v, choose|read: Version| read.named_by(v.tag_name()), v.tag_name());
}

/// Reading the label of a mark gives its counter back.
pub proof fn law_label_round_trip(tag: PrereleaseTag)
    ensures
        PrereleaseTag::decoded(tag.label()) == Ok::<u32, ParseError>(tag.counter),
{
    lemma_label_injective(tag, choose|read: PrereleaseTag| read.label() == tag.label());
}

} // verus!
