//! A tree-shaped document (the shape of a decoded JSON reply) and safe,
//! path-based access to the values in it.

use vstd::prelude::*;

use crate::number::{Binary64, EXPONENT_UNIT, SUBNORMAL_EXPONENT};

verus! {

/// A node of a structured document.
pub enum Doc {
    Null,
    Bool(bool),
    Number(Binary64),
    Text(String),
    List(Vec<Doc>),
    Object(Vec<Member>),
}

/// One named entry of an object.
pub struct Member {
    pub key: String,
    pub value: Doc,
}

/// One step of a path into a document: a member name or a list position.
#[derive(Clone, Copy, Debug)]
pub enum Step {
    Key(&'static str),
    Index(usize),
}

/// The value of the first member of `entries` named `key`.
pub open spec fn member_named(entries: Seq<Member>, key: Seq<char>) -> Option<Doc>
    decreases entries.len(),
{
    if entries.len() == 0 {
        None
    } else if entries[0].key@ == key {
        Some(entries[0].value)
    } else {
        member_named(entries.drop_first(), key)
    }
}

/// The child of `d` that one step leads to, if there is one.
pub open spec fn child(d: Doc, s: Step) -> Option<Doc> {
    match s {
        Step::Key(k) => match d {
            Doc::Object(entries) => member_named(entries@, k@),
            _ => None,
        },
        Step::Index(i) => match d {
            Doc::List(items) => if i < items@.len() {
                Some(items@[i as int])
            } else {
                None
            },
            _ => None,
        },
    }
}

/// The node at the end of `path`, if every step of it exists.
pub open spec fn resolve(d: Doc, path: Seq<Step>) -> Option<Doc>
    decreases path.len(),
{
    if path.len() == 0 {
        Some(d)
    } else {
        match child(d, path[0]) {
            Some(c) => resolve(c, path.drop_first()),
            None => None,
        }
    }
}

/// The number at `path`, or zero where the path is absent, leads to something
/// other than a number, or to a number out of the range of a double.
pub open spec fn number_at(d: Doc, path: Seq<Step>) -> Binary64 {
    match resolve(d, path) {
        Some(Doc::Number(n)) => if n.wf() {
            n
        } else {
            Binary64 { negative: false, mantissa: 0, exponent: SUBNORMAL_EXPONENT }
        },
        _ => Binary64 { negative: false, mantissa: 0, exponent: SUBNORMAL_EXPONENT },
    }
}

/// The text at `path`, or the empty text where there is none.
pub open spec fn text_at(d: Doc, path: Seq<Step>) -> Seq<char> {
    match resolve(d, path) {
        Some(Doc::Text(s)) => s@,
        _ => Seq::empty(),
    }
}

/// The node a borrowed lookup result refers to.
pub open spec fn found(r: Option<&Doc>) -> Option<Doc> {
    match r {
        Some(d) => Some(*d),
        None => None,
    }
}

impl Doc {
    /// The child that one step leads to.
    pub fn child(&self, s: &Step) -> (r: Option<&Doc>)
        ensures
            found(r) == child(*self, *s),
    {
        match s {
            Step::Key(k) => match self {
                Doc::Object(entries) => {
                    let key = String::from_str(k);
                    let mut i: usize = 0;
                    assert(entries@.subrange(0, entries@.len() as int) =~= entries@);
                    while i < entries.len()
                        invariant
                            i <= entries@.len(),
                            key@ == k@,
                            *s == Step::Key(*k),
                            *self == Doc::Object(*entries),
                            member_named(entries@, k@) == member_named(
                                entries@.subrange(i as int, entries@.len() as int),
                                k@,
                            ),
                        decreases entries@.len() - i,
                    {
                        let ghost rest = entries@.subrange(i as int, entries@.len() as int);
                        assert(rest.drop_first() =~= entries@.subrange(
                            i + 1,
                            entries@.len() as int,
                        ));
                        assert(rest[0] == entries@[i as int]);
                        if entries[i].key == key {
                            return Some(&entries[i].value);
                        }
                        i = i + 1;
                    }
                    None
                },
                _ => None,
            },
            Step::Index(i) => match self {
                Doc::List(items) => {
                    if *i < items.len() {
                        Some(&items[*i])
                    } else {
                        None
                    }
                },
                _ => None,
            },
        }
    }

    /// The node at the end of `path`.
    pub fn resolve(&self, path: &Vec<Step>) -> (r: Option<&Doc>)
        ensures
            found(r) == resolve(*self, path@),
    {
        let mut cur = self;
        let mut i: usize = 0;
        assert(path@.subrange(0, path@.len() as int) =~= path@);
        while i < path.len()
            invariant
                i <= path@.len(),
                resolve(*self, path@) == resolve(*cur, path@.subrange(i as int, path@.len() as int)),
            decreases path@.len() - i,
        {
            let ghost rest = path@.subrange(i as int, path@.len() as int);
            assert(rest.drop_first() =~= path@.subrange(i + 1, path@.len() as int));
            match cur.child(&path[i]) {
                Some(c) => {
                    cur = c;
                },
                None => {
                    return None;
                },
            }
            i = i + 1;
        }
        assert(path@.subrange(i as int, path@.len() as int).len() == 0);
        Some(cur)
    }

    /// The number at `path`, with zero standing in for a missing or malformed value.
    pub fn number_at(&self, path: &Vec<Step>) -> (r: Binary64)
        ensures
            r == number_at(*self, path@),
            r.wf(),
    {
        match self.resolve(path) {
            Some(Doc::Number(n)) => {
                if n.mantissa < 2 * EXPONENT_UNIT && SUBNORMAL_EXPONENT <= n.exponent
                    && n.exponent <= 971 {
                    *n
                } else {
                    Binary64::zero()
                }
            },
            _ => Binary64::zero(),
        }
    }

    /// The text at `path`, with the empty text standing in for a missing one.
    pub fn text_at(&self, path: &Vec<Step>) -> (r: String)
        ensures
            r@ == text_at(*self, path@),
    {
        match self.resolve(path) {
            Some(Doc::Text(s)) => s.clone(),
            _ => String::new(),
        }
    }
}

/// A field that is absent, not a number, or a number out of range reads as
/// zero, whatever else the document holds.
pub proof fn missing_number_reads_zero(d: Doc, path: Seq<Step>)
    requires
        !(resolve(d, path) matches Some(Doc::Number(n)) && n.wf()),
    ensures
        number_at(d, path) == (Binary64 { negative: false, mantissa: 0, exponent: SUBNORMAL_EXPONENT }),
{
}

} // verus!
