//! Texts that the screens show: slot labels, the slot of a font, the
//! differences between two profiles, and the kind of a result-log line.
use vstd::prelude::*;

use crate::app::{App, DiffDisplay};
use crate::library::{human_bytes, human_bytes_text};
use crate::text::{chars_of, decimal, push_char, push_decimal, views};

verus! {

/// `s` right-aligned in a field of `width` characters.
pub open spec fn pad_left(s: Seq<char>, width: nat) -> Seq<char> {
    if s.len() < width {
        Seq::new((width - s.len()) as nat, |i: int| ' ') + s
    } else {
        s
    }
}

/// The label of slot `index` (0-based) in the lists: the 1-based slot number
/// right-aligned in three columns, a point and a space.
pub open spec fn slot_label_text(index: nat) -> Seq<char> {
    pad_left(decimal(index + 1), 3) + seq!['.', ' ']
}

/// The label of slot `index` (0-based).
pub fn slot_label(index: usize) -> (r: String)
    requires
        index < u64::MAX,
    ensures
        r@ == slot_label_text(index as nat),
{
    let mut digits = String::new();
    push_decimal(&mut digits, index as u64 + 1);
    let n = digits.unicode_len();
    let mut r = String::new();
    let mut k: usize = n;
    while k < 3
        invariant
            n == decimal(index as nat + 1).len(),
            n <= k <= 3 || (n > 3 && k == n),
            r@ == Seq::new((k - n) as nat, |i: int| ' '),
        decreases 3 - k,
    {
        push_char(&mut r, ' ');
        k = k + 1;
        assert(r@ =~= Seq::new((k - n) as nat, |i: int| ' '));
    }
    r.append(digits.as_str());
    push_char(&mut r, '.');
    push_char(&mut r, ' ');
    proof {
        if n >= 3 {
            assert(r@ =~= slot_label_text(index as nat));
        } else {
            assert(k == 3);
            assert(r@ =~= slot_label_text(index as nat));
        }
    }
    r
}

/// The index of the first occurrence of `name` in `s`.
pub open spec fn position_of(s: Seq<Seq<char>>, name: Seq<char>) -> Option<nat> {
    if s.contains(name) {
        Some(choose|i: nat| i < s.len() && s[i as int] == name && forall|j: int| 0 <= j < i ==> s[j] != name)
    } else {
        None
    }
}

impl App {
    /// The slot of `name` in the working order: the index of its first
    /// occurrence, if any.
    pub fn slot_of(&self, name: &String) -> (r: Option<usize>)
        ensures
            match r {
                Some(i) => i < self.profile_order.len() && views(self.profile_order@)[i as int]
                    == name@ && forall|j: int| 0 <= j < i ==> views(self.profile_order@)[j] != name@,
                None => !views(self.profile_order@).contains(name@),
            },
    {
        let mut i: usize = 0;
        while i < self.profile_order.len()
            invariant
                i <= self.profile_order.len(),
                forall|j: int| 0 <= j < i ==> views(self.profile_order@)[j] != name@,
            decreases self.profile_order.len() - i,
        {
            if self.profile_order[i] == *name {
                return Some(i);
            }
            i = i + 1;
        }
        proof {
            if views(self.profile_order@).contains(name@) {
                let k = choose|k: int| 0 <= k < views(self.profile_order@).len() && views(
                    self.profile_order@,
                )[k] == name@;
                assert(views(self.profile_order@)[k] != name@);
            }
        }
        None
    }
}

impl DiffDisplay {
    /// The number of distinct fonts of profile A: shared plus only in A.
    pub fn count_a(&self) -> (r: usize)
        requires
            self.diff.in_both.len() + self.diff.only_in_a.len() <= usize::MAX,
        ensures
            r == self.diff.in_both.len() + self.diff.only_in_a.len(),
    {
        self.diff.in_both.len() + self.diff.only_in_a.len()
    }

    /// The number of distinct fonts of profile B: shared plus only in B.
    pub fn count_b(&self) -> (r: usize)
        requires
            self.diff.in_both.len() + self.diff.only_in_b.len() <= usize::MAX,
        ensures
            r == self.diff.in_both.len() + self.diff.only_in_b.len(),
    {
        self.diff.in_both.len() + self.diff.only_in_b.len()
    }
}

/// The change from `a` to `b` as the diff screen shows a count: a plus sign
/// and the difference when it grew, a minus sign when it shrank, `0` when
/// equal.
pub open spec fn delta_count_text(a: nat, b: nat) -> Seq<char> {
    if b > a {
        seq!['+'] + decimal((b - a) as nat)
    } else if b < a {
        seq!['-'] + decimal((a - b) as nat)
    } else {
        seq!['0']
    }
}

/// The change from `a` to `b` as the diff screen shows a size: a sign and
/// the human-readable difference, or `=` when equal.
pub open spec fn delta_bytes_text(a: nat, b: nat) -> Seq<char> {
    if b > a {
        seq!['+'] + human_bytes_text((b - a) as nat)
    } else if b < a {
        seq!['-'] + human_bytes_text((a - b) as nat)
    } else {
        seq!['=']
    }
}

/// The change of a count from `a` to `b`.
pub fn delta_count(a: u64, b: u64) -> (r: String)
    ensures
        r@ == delta_count_text(a as nat, b as nat),
{
    let mut r = String::new();
    if b > a {
        push_char(&mut r, '+');
        push_decimal(&mut r, b - a);
    } else if b < a {
        push_char(&mut r, '-');
        push_decimal(&mut r, a - b);
    } else {
        push_char(&mut r, '0');
    }
    assert(r@ =~= delta_count_text(a as nat, b as nat));
    r
}

/// The change of a size from `a` to `b`.
pub fn delta_bytes(a: u64, b: u64) -> (r: String)
    ensures
        r@ == delta_bytes_text(a as nat, b as nat),
{
    let mut r = String::new();
    if b > a {
        push_char(&mut r, '+');
        r.append(human_bytes(b - a).as_str());
    } else if b < a {
        push_char(&mut r, '-');
        r.append(human_bytes(a - b).as_str());
    } else {
        push_char(&mut r, '=');
    }
    assert(r@ =~= delta_bytes_text(a as nat, b as nat));
    r
}

/// What a line of the export result log reports.
#[derive(Debug, Clone, Copy, PartialEq, Eq, Structural)]
pub enum LogLineKind {
    /// A font was copied (the line starts with a check mark).
    Copied,
    /// A font was not in the library (the line starts with `SKIP`).
    Skipped,
    /// Any other line with an arrow, such as the header.
    Arrow,
    Other,
}

/// The kind of a result-log line.
pub open spec fn log_line_kind_of(line: Seq<char>) -> LogLineKind {
    if line.len() > 0 && line[0] == '\u{2713}' {
        LogLineKind::Copied
    } else if line.len() >= 4 && line.take(4) == "SKIP"@ {
        LogLineKind::Skipped
    } else if line.contains('\u{2192}') {
        LogLineKind::Arrow
    } else {
        LogLineKind::Other
    }
}

/// The kind of a result-log line.
pub fn log_line_kind(line: &String) -> (r: LogLineKind)
    ensures
        r == log_line_kind_of(line@),
{
    let cs = chars_of(line.as_str());
    if cs.len() > 0 && cs[0] == '\u{2713}' {
        return LogLineKind::Copied;
    }
    let skip = chars_of("SKIP");
    proof {
        reveal_strlit("SKIP");
    }
    if cs.len() >= 4 && cs[0] == skip[0] && cs[1] == skip[1] && cs[2] == skip[2] && cs[3] == skip[3] {
        assert(cs@.take(4) =~= "SKIP"@);
        return LogLineKind::Skipped;
    }
    if cs.len() >= 4 {
        assert(cs@.take(4) != "SKIP"@) by {
            if cs@.take(4) == "SKIP"@ {
                assert(cs@[0] == cs@.take(4)[0]);
                assert(cs@[1] == cs@.take(4)[1]);
                assert(cs@[2] == cs@.take(4)[2]);
                assert(cs@[3] == cs@.take(4)[3]);
            }
        }
    }
    if contains_char(&cs, '\u{2192}') {
        LogLineKind::Arrow
    } else {
        LogLineKind::Other
    }
}

/// Whether `c` occurs in `cs`.
fn contains_char(cs: &Vec<char>, c: char) -> (r: bool)
    ensures
        r == cs@.contains(c),
{
    let mut i: usize = 0;
    while i < cs.len()
        invariant
            i <= cs.len(),
            forall|j: int| 0 <= j < i ==> cs@[j] != c,
        decreases cs.len() - i,
    {
        if cs[i] == c {
            assert(cs@[i as int] == c);
            return true;
        }
        i = i + 1;
    }
    false
}

} // verus!
