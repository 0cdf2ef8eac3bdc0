use vstd::prelude::*;
use crate::catalog::{is_digit, digit_value};
use crate::mapper::{MapOp, MapOpType};

verus! {

/// The number of operation kinds there are.
pub const KIND_COUNT: usize = 1;

/// The kind that a name given by the user stands for.
pub open spec fn kind_named(s: Seq<char>) -> Option<MapOpType> {
    if s == seq!['c', 'o', 'p', 'y'] {
        Some(MapOpType::Copy)
    } else {
        None
    }
}

impl MapOpType {
    /// The names by which the user picks a kind.
    pub fn names() -> (r: Vec<&'static str>)
        ensures
            r@.len() == KIND_COUNT,
            r@[0]@ == seq!['c', 'o', 'p', 'y'],
    {
        proof {
            reveal_strlit("copy");
        }
        let mut v: Vec<&'static str> = Vec::new();
        v.push("copy");
        v
    }

    /// The kind of the given name.
    pub fn from_name(s: &str) -> (r: Option<MapOpType>)
        ensures
            r == kind_named(s@),
    {
        proof {
            reveal_strlit("copy");
        }
        let copy = "copy";
        if s.unicode_len() == 4 && s.get_char(0) == copy.get_char(0) && s.get_char(1)
            == copy.get_char(1) && s.get_char(2) == copy.get_char(2) && s.get_char(3)
            == copy.get_char(3) {
            assert(s@ =~= seq!['c', 'o', 'p', 'y']);
            Some(MapOpType::Copy)
        } else {
            assert(s@ != seq!['c', 'o', 'p', 'y']) by {
                if s@ == seq!['c', 'o', 'p', 'y'] {
                    assert(s@[0] == copy@[0]);
                }
            }
            None
        }
    }
}

/// The value of a string of decimal digits.
pub open spec fn digits_value(s: Seq<char>) -> int
    decreases s.len(),
{
    if s.len() == 0 {
        0
    } else {
        digits_value(s.drop_last()) * 10 + digit_value(s.last())
    }
}

/// The text of a number without its optional leading `+`.
pub open spec fn unsigned_digits(s: Seq<char>) -> Seq<char> {
    if s.len() > 0 && s[0] == '+' {
        s.drop_first()
    } else {
        s
    }
}

/// The number that a line spells in base 10: an optional `+` and one or more
/// decimal digits, whose value fits in 32 bits.
pub open spec fn parsed_u32(s: Seq<char>) -> Option<u32> {
    let d = unsigned_digits(s);
    if d.len() > 0 && (forall|i: int| 0 <= i < d.len() ==> is_digit(#[trigger] d[i]))
        && digits_value(d) <= u32::MAX {
        Some(digits_value(d) as u32)
    } else {
        None
    }
}

proof fn lemma_digits_value_grows(s: Seq<char>, k: int)
    requires
        0 <= k <= s.len(),
        forall|i: int| 0 <= i < s.len() ==> is_digit(#[trigger] s[i]),
    ensures
        digits_value(s.subrange(0, k)) <= digits_value(s),
        0 <= digits_value(s.subrange(0, k)),
    decreases s.len() - k,
{
    if k < s.len() {
        lemma_digits_value_grows(s, k + 1);
        let p = s.subrange(0, k + 1);
        assert(p.drop_last() =~= s.subrange(0, k));
        lemma_digits_value_nonneg(s.subrange(0, k));
    } else {
        assert(s.subrange(0, k) =~= s);
        lemma_digits_value_nonneg(s);
    }
}

proof fn lemma_digits_value_nonneg(s: Seq<char>)
    requires
        forall|i: int| 0 <= i < s.len() ==> is_digit(#[trigger] s[i]),
    ensures
        0 <= digits_value(s),
    decreases s.len(),
{
    if s.len() > 0 {
        lemma_digits_value_nonneg(s.drop_last());
    }
}

/// Reads a line as a base-10 number of 32 bits: an optional `+` and one or
/// more decimal digits, with nothing around them.
pub fn parse_u32(line: &str) -> (r: Option<u32>)
    ensures
        r == parsed_u32(line@),
{
    let n = line.unicode_len();
    let mut i: usize = 0;
    if n > 0 && line.get_char(0) == '+' {
        i = 1;
    }
    let ghost d = unsigned_digits(line@);
    assert(d =~= line@.subrange(i as int, n as int));
    if i >= n {
        return None;
    }
    let first = i;
    let mut value: u32 = 0;
    while i < n
        invariant
            n == line@.len(),
            first <= i <= n,
            d == unsigned_digits(line@),
            d == line@.subrange(first as int, n as int),
            forall|k: int| 0 <= k < i - first ==> is_digit(#[trigger] d[k]),
            value as int == digits_value(d.subrange(0, i - first)),
        decreases n - i,
    {
        let c = line.get_char(i);
        if c < '0' || c > '9' {
            assert(!is_digit(d[i - first]));
            return None;
        }
        let dv = (c as u32) - ('0' as u32);
        proof {
            let p = d.subrange(0, i - first + 1);
            assert(p.drop_last() =~= d.subrange(0, i - first));
            assert(p.last() == c);
        }
        if value > 429496729 || (value == 429496729 && dv > 5) {
            proof {
                let p = d.subrange(0, i - first + 1);
                let vv = value as int;
                let dd = dv as int;
                assert(vv * 10 + dd > u32::MAX) by (nonlinear_arith)
                    requires vv > 429496729 || (vv == 429496729 && dd > 5), dd >= 0;
                assert(digits_value(p) > u32::MAX);
                if forall|k: int| 0 <= k < d.len() ==> is_digit(#[trigger] d[k]) {
                    lemma_digits_value_grows(d, i - first + 1);
                }
            }
            return None;
        }
        proof {
            let vv = value as int;
            let dd = dv as int;
            assert(vv * 10 + dd <= u32::MAX) by (nonlinear_arith)
                requires vv < 429496729 || (vv == 429496729 && dd <= 5), 0 <= dd <= 9;
        }
        value = value * 10 + dv;
        i += 1;
    }
    assert(d.subrange(0, n - first) =~= d);
    Some(value)
}

/// What the session asks for next.
#[derive(Debug, Clone, Copy, PartialEq, Eq, Structural)]
pub enum Prompt {
    /// A group's name; an empty one ends the entry.
    GroupName,
    /// The kind of the group's operation, by name.
    OpKind,
    /// The first id of the group's range.
    Start,
    /// The id one past the last of the group's range.
    End,
}

/// Why a line was refused.
#[derive(Debug)]
pub enum InputError {
    /// The line is no base-10 number of 32 bits.
    NotANumber(String),
    /// The line names no operation kind.
    UnknownKind(String),
}

/// Interactive entry of operations: for each group a name, then (where there
/// is more than one kind) a kind, a start and an end; an empty name ends it.
#[derive(Debug)]
pub struct OpPrompt {
    /// The operations entered in full so far.
    pub ops: Vec<MapOp>,
    /// What is asked next, or `None` once the entry has ended.
    pub next: Option<Prompt>,
    /// The name of the group being entered.
    pub name: String,
    /// The kind of the group being entered.
    pub kind: MapOpType,
    /// The start of the group being entered.
    pub start: u32,
}

/// How the session moves on when `line` answers `prompt`: the new state, or
/// the error that the line meets.
pub open spec fn answered(s: OpPrompt, line: Seq<char>, t: OpPrompt, r: Result<(), InputError>) -> bool {
    match s.next {
        None => r is Ok && t == s,
        Some(Prompt::GroupName) => r is Ok && t.ops == s.ops && if line.len() == 0 {
            t.next == None::<Prompt>
        } else {
            &&& t.name@ == line
            &&& t.kind == MapOpType::Copy
            &&& t.next == Some(if KIND_COUNT > 1 { Prompt::OpKind } else { Prompt::Start })
        },
        Some(Prompt::OpKind) => match kind_named(line) {
            Some(k) => r is Ok && t == (OpPrompt { kind: k, next: Some(Prompt::Start), ..s }),
            None => (r matches Err(InputError::UnknownKind(l)) && l@ == line) && t == s,
        },
        Some(Prompt::Start) => match parsed_u32(line) {
            Some(v) => r is Ok && t == (OpPrompt { start: v, next: Some(Prompt::End), ..s }),
            None => (r matches Err(InputError::NotANumber(l)) && l@ == line) && t == s,
        },
        Some(Prompt::End) => match parsed_u32(line) {
            Some(v) => {
                &&& r is Ok
                &&& t.next == Some(Prompt::GroupName)
                &&& t.ops@.len() == s.ops@.len() + 1
                &&& t.ops@.drop_last() == s.ops@
                &&& t.ops@.last() == (MapOp { op_type: s.kind, name: s.name, start: s.start, end: v })
            },
            None => (r matches Err(InputError::NotANumber(l)) && l@ == line) && t == s,
        },
    }
}

impl OpPrompt {
    /// A session that asks for the first group's name.
    pub fn new() -> (r: OpPrompt)
        ensures
            r.ops@.len() == 0,
            r.next == Some(Prompt::GroupName),
    {
        OpPrompt {
            ops: Vec::new(),
            next: Some(Prompt::GroupName),
            name: String::new(),
            kind: MapOpType::Copy,
            start: 0,
        }
    }

    /// Takes the user's answer to what was asked.
    pub fn answer(&mut self, line: String) -> (r: Result<(), InputError>)
        ensures
            answered(*old(self), line@, *final(self), r),
    {
        match self.next {
            None => Ok(()),
            Some(Prompt::GroupName) => {
                if line.as_str().unicode_len() == 0 {
                    self.next = None;
                } else {
                    self.name = line;
                    self.kind = MapOpType::Copy;
                    self.next = Some(if KIND_COUNT > 1 { Prompt::OpKind } else { Prompt::Start });
                }
                Ok(())
            },
            Some(Prompt::OpKind) => match MapOpType::from_name(line.as_str()) {
                Some(k) => {
                    self.kind = k;
                    self.next = Some(Prompt::Start);
                    Ok(())
                },
                None => Err(InputError::UnknownKind(line)),
            },
            Some(Prompt::Start) => match parse_u32(line.as_str()) {
                Some(v) => {
                    self.start = v;
                    self.next = Some(Prompt::End);
                    Ok(())
                },
                None => Err(InputError::NotANumber(line)),
            },
            Some(Prompt::End) => match parse_u32(line.as_str()) {
                Some(v) => {
                    let op = MapOp {
                        op_type: self.kind,
                        name: self.name.clone(),
                        start: self.start,
                        end: v,
                    };
                    self.ops.push(op);
                    assert(self.ops@.drop_last() =~= old(self).ops@);
                    self.next = Some(Prompt::GroupName);
                    Ok(())
                },
                None => Err(InputError::NotANumber(line)),
            },
        }
    }

    /// Whether the entry has ended.
    pub fn is_done(&self) -> (r: bool)
        ensures
            r == (self.next is None),
    {
        self.next.is_none()
    }

    /// The operations entered in full.
    pub fn into_ops(self) -> (r: Vec<MapOp>)
        ensures
            r == self.ops,
    {
        self.ops
    }
}

} // verus!
