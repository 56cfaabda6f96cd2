//! Variable-length values and their ordering, with the error type of value operations.
use vstd::prelude::*;
use vstd::string::StringSliceAdditionalSpecFns;
use vstd::utf8::encode_utf8;

verus! {

/// What kind of value operation failed.
#[derive(Clone, Copy, Debug, PartialEq, Eq, Structural)]
pub enum ErrorKind {
    NotSupported,
    CannotCast,
    DivideByZero,
    SqrtOnNegative,
    Overflow,
}

/// A failed value operation: its kind and a message.
#[derive(Debug)]
pub struct Error {
    pub kind: ErrorKind,
    pub message: String,
}

impl Error {
    pub fn new(kind: ErrorKind, message: &str) -> (r: Error)
        ensures
            r.kind == kind,
            r.message@ == message@,
    {
        Error { kind, message: message.to_owned() }
    }
}

/// Three-valued comparison outcome.
#[derive(Clone, Copy, Debug, PartialEq, Eq, Structural)]
pub enum CmpBool {
    CmpTrue,
    CmpFalse,
    CmpNull,
}

pub fn cmp_bool(val: bool) -> (r: CmpBool)
    ensures
        r == if val {
            CmpBool::CmpTrue
        } else {
            CmpBool::CmpFalse
        },
{
    if val {
        CmpBool::CmpTrue
    } else {
        CmpBool::CmpFalse
    }
}

/// A string, or the greatest string of all.
#[derive(Debug)]
pub enum Str<T> {
    Val(T),
    MaxVal,
}

/// A variable-length value, owning its string or borrowing it.
#[derive(Debug)]
pub enum Varlen<'a> {
    Owned(Str<String>),
    Borrowed(Str<&'a str>),
}

impl Str<String> {
    /// Length in bytes; zero for the greatest string.
    pub fn len(&self) -> (r: usize)
        ensures
            r == match self {
                Str::Val(s) => encode_utf8(s@).len() as usize,
                Str::MaxVal => 0,
            },
    {
        match self {
            Str::Val(s) => s.as_str().len(),
            Str::MaxVal => 0,
        }
    }

    /// The bytes; none for the greatest string.
    pub fn as_bytes(&self) -> (r: Option<&[u8]>)
        ensures
            match self {
                Str::Val(s) => r matches Some(b) && b@ == encode_utf8(s@),
                Str::MaxVal => r is None,
            },
    {
        match self {
            Str::Val(s) => Some(s.as_str().as_bytes()),
            Str::MaxVal => None,
        }
    }
}

impl<'a> Str<&'a str> {
    /// Length in bytes; zero for the greatest string.
    pub fn len(&self) -> (r: usize)
        ensures
            r == match self {
                Str::Val(s) => s.spec_bytes().len() as usize,
                Str::MaxVal => 0,
            },
    {
        match self {
            Str::Val(s) => s.len(),
            Str::MaxVal => 0,
        }
    }

    /// The bytes; none for the greatest string.
    pub fn as_bytes(&self) -> (r: Option<&[u8]>)
        ensures
            match self {
                Str::Val(s) => r matches Some(b) && b@ == s.spec_bytes(),
                Str::MaxVal => r is None,
            },
    {
        match self {
            Str::Val(s) => Some(s.as_bytes()),
            Str::MaxVal => None,
        }
    }
}

/// The bytes of a variable-length value, or `None` for the greatest string.
pub open spec fn varlen_bytes(v: &Varlen) -> Option<Seq<u8>> {
    match v {
        Varlen::Owned(Str::Val(s)) => Some(encode_utf8(s@)),
        Varlen::Owned(Str::MaxVal) => None,
        Varlen::Borrowed(Str::Val(s)) => Some(s.spec_bytes()),
        Varlen::Borrowed(Str::MaxVal) => None,
    }
}

impl<'a> Varlen<'a> {
    /// Length in bytes; zero for the greatest string.
    pub fn len(&self) -> (r: usize)
        ensures
            r == match varlen_bytes(self) {
                Some(b) => b.len() as usize,
                None => 0,
            },
    {
        match self {
            Varlen::Owned(s) => s.len(),
            Varlen::Borrowed(s) => s.len(),
        }
    }

    /// The string; the greatest string has none.
    pub fn borrow(&self) -> (r: Result<&str, Error>)
        ensures
            match varlen_bytes(self) {
                Some(b) => r matches Ok(s) && s.spec_bytes() == b,
                None => r matches Err(e) && e.kind == ErrorKind::NotSupported,
            },
    {
        match self {
            Varlen::Owned(Str::Val(val)) => Ok(val.as_str()),
            Varlen::Borrowed(Str::Val(val)) => Ok(*val),
            _ => Err(Error::new(ErrorKind::NotSupported, "Cannot get string from Str::MaxVal")),
        }
    }
}

/// Lexicographic comparison of byte strings: -1, 0 or 1.
pub open spec fn lex_cmp(a: Seq<u8>, b: Seq<u8>) -> i8
    decreases a.len(),
{
    if a.len() == 0 && b.len() == 0 {
        0i8
    } else if a.len() == 0 {
        -1i8
    } else if b.len() == 0 {
        1i8
    } else if a[0] < b[0] {
        -1i8
    } else if a[0] > b[0] {
        1i8
    } else {
        lex_cmp(a.drop_first(), b.drop_first())
    }
}

proof fn lemma_lex_cmp_skip(a: Seq<u8>, b: Seq<u8>, i: int)
    requires
        0 <= i <= a.len(),
        i <= b.len(),
        forall|j: int| 0 <= j < i ==> a[j] == b[j],
    ensures
        lex_cmp(a, b) == lex_cmp(a.subrange(i, a.len() as int), b.subrange(i, b.len() as int)),
    decreases i,
{
    if i > 0 {
        lemma_lex_cmp_skip(a.drop_first(), b.drop_first(), i - 1);
        assert(a.drop_first().subrange(i - 1, a.len() - 1) =~= a.subrange(i, a.len() as int));
        assert(b.drop_first().subrange(i - 1, b.len() - 1) =~= b.subrange(i, b.len() as int));
    } else {
        assert(a.subrange(0, a.len() as int) =~= a);
        assert(b.subrange(0, b.len() as int) =~= b);
    }
}

/// Compares two strings: -1, 0 or 1. UTF-8 keeps the order of code points, so comparing
/// the bytes orders the strings as their characters, a proper prefix first.
pub fn str_cmp(lhs: &str, rhs: &str) -> (r: i8)
    ensures
        r == lex_cmp(lhs.spec_bytes(), rhs.spec_bytes()),
{
    let a = lhs.as_bytes();
    let b = rhs.as_bytes();
    let mut i: usize = 0;
    while i < a.len() && i < b.len()
        invariant
            a@ == lhs.spec_bytes(),
            b@ == rhs.spec_bytes(),
            i <= a@.len(),
            i <= b@.len(),
            forall|j: int| 0 <= j < i ==> a@[j] == b@[j],
        decreases a@.len() - i,
    {
        if a[i] > b[i] {
            proof {
                lemma_lex_cmp_skip(a@, b@, i as int);
            }
            return 1;
        } else if a[i] < b[i] {
            proof {
                lemma_lex_cmp_skip(a@, b@, i as int);
            }
            return -1;
        }
        i = i + 1;
    }
    proof {
        lemma_lex_cmp_skip(a@, b@, i as int);
    }
    if a.len() > b.len() {
        1
    } else if a.len() < b.len() {
        -1
    } else {
        0
    }
}

/// The order of variable-length values: -1, 0 or 1.
pub open spec fn varlen_order(l: Option<Seq<u8>>, r: Option<Seq<u8>>) -> i8 {
    match (l, r) {
        (Some(a), Some(b)) => lex_cmp(a, b),
        (Some(_), None) => -1i8,
        (None, Some(_)) => 1i8,
        (None, None) => 0i8,
    }
}

/// Compares two variable-length values: strings by their bytes, the greatest string above
/// every other and equal to itself.
pub fn varlen_cmp(lhs: &Varlen, rhs: &Varlen) -> (r: i8)
    ensures
        r == varlen_order(varlen_bytes(lhs), varlen_bytes(rhs)),
{
    match lhs {
        Varlen::Owned(Str::Val(lhsval)) => str_varlen_cmp(lhsval.as_str(), rhs),
        Varlen::Owned(Str::MaxVal) => maxstr_varlen_cmp(rhs),
        Varlen::Borrowed(Str::Val(lhsval)) => str_varlen_cmp(lhsval, rhs),
        Varlen::Borrowed(Str::MaxVal) => maxstr_varlen_cmp(rhs),
    }
}

fn maxstr_varlen_cmp(other: &Varlen) -> (r: i8)
    ensures
        r == varlen_order(None, varlen_bytes(other)),
{
    match other {
        Varlen::Owned(Str::Val(_)) => 1,
        Varlen::Owned(Str::MaxVal) => 0,
        Varlen::Borrowed(Str::Val(_)) => 1,
        Varlen::Borrowed(Str::MaxVal) => 0,
    }
}

fn str_varlen_cmp(lhs: &str, rhs: &Varlen) -> (r: i8)
    ensures
        r == varlen_order(Some(lhs.spec_bytes()), varlen_bytes(rhs)),
{
    match rhs {
        Varlen::Owned(Str::Val(rhsval)) => str_cmp(lhs, rhsval.as_str()),
        Varlen::Owned(Str::MaxVal) => -1,
        Varlen::Borrowed(Str::Val(rhsval)) => str_cmp(lhs, rhsval),
        Varlen::Borrowed(Str::MaxVal) => -1,
    }
}

} // verus!
