use crate::version::{Identifier, Version};
use vstd::prelude::*;

verus! {

/// The lower-case hexadecimal digit of a value below 16.
pub open spec fn digit_char(d: nat) -> char {
    if d == 0 {
        '0'
    } else
    if d == 1 {
        '1'
    } else
    if d == 2 {
        '2'
    } else
    if d == 3 {
        '3'
    } else
    if d == 4 {
        '4'
    } else
    if d == 5 {
        '5'
    } else
    if d == 6 {
        '6'
    } else
    if d == 7 {
        '7'
    } else
    if d == 8 {
        '8'
    } else
    if d == 9 {
        '9'
    } else
    if d == 10 {
        'a'
    } else
    if d == 11 {
        'b'
    } else
    if d == 12 {
        'c'
    } else
    if d == 13 {
        'd'
    } else
    if d == 14 {
        'e'
    } else {
        'f'
    }
}

/// The decimal text of a number, without leading zeros.
pub open spec fn dec(n: nat) -> Seq<char>
    decreases n,
{
    if n < 10 {
        seq![digit_char(n)]
    } else {
        dec(n / 10).push(digit_char(n % 10))
    }
}

/// The text of one identifier.
pub open spec fn ident_text(i: Identifier) -> Seq<char> {
    match i {
        Identifier::Numeric(n) => dec(n as nat),
        Identifier::AlphaNumeric(s) => s@,
    }
}

/// Identifiers joined by dots.
pub open spec fn joined(ids: Seq<Identifier>) -> Seq<char>
    decreases ids.len(),
{
    if ids.len() == 0 {
        Seq::empty()
    } else if ids.len() == 1 {
        ident_text(ids[0])
    } else {
        joined(ids.drop_last()).push('.') + ident_text(ids.last())
    }
}

/// `sep` and the joined identifiers, or nothing for an empty list.
pub open spec fn suffix(sep: char, ids: Seq<Identifier>) -> Seq<char> {
    if ids.len() == 0 {
        Seq::empty()
    } else {
        seq![sep] + joined(ids)
    }
}

/// The canonical text of a version: `major.minor.patch[-pre][+build]`.
pub open spec fn version_text(v: Version) -> Seq<char> {
    dec(v.major as nat).push('.') + dec(v.minor as nat).push('.') + dec(v.patch as nat)
        + suffix('-', v.pre@) + suffix('+', v.build@)
}

pub(crate) fn digit_str(d: u64) -> (r: &'static str)
    requires
        d < 16,
    ensures
        r@ == seq![digit_char(d as nat)],
{
    if d == 0 {
        proof {
            reveal_strlit("0");
        }
        "0"
    } else
    if d == 1 {
        proof {
            reveal_strlit("1");
        }
        "1"
    } else
    if d == 2 {
        proof {
            reveal_strlit("2");
        }
        "2"
    } else
    if d == 3 {
        proof {
            reveal_strlit("3");
        }
        "3"
    } else
    if d == 4 {
        proof {
            reveal_strlit("4");
        }
        "4"
    } else
    if d == 5 {
        proof {
            reveal_strlit("5");
        }
        "5"
    } else
    if d == 6 {
        proof {
            reveal_strlit("6");
        }
        "6"
    } else
    if d == 7 {
        proof {
            reveal_strlit("7");
        }
        "7"
    } else
    if d == 8 {
        proof {
            reveal_strlit("8");
        }
        "8"
    } else
    if d == 9 {
        proof {
            reveal_strlit("9");
        }
        "9"
    } else
    if d == 10 {
        proof {
            reveal_strlit("a");
        }
        "a"
    } else
    if d == 11 {
        proof {
            reveal_strlit("b");
        }
        "b"
    } else
    if d == 12 {
        proof {
            reveal_strlit("c");
        }
        "c"
    } else
    if d == 13 {
        proof {
            reveal_strlit("d");
        }
        "d"
    } else
    if d == 14 {
        proof {
            reveal_strlit("e");
        }
        "e"
    } else {
        proof {
            reveal_strlit("f");
        }
        "f"
    }
}

pub(crate) fn push_decimal(out: &mut String, n: u64)
    ensures
        final(out)@ == old(out)@ + dec(n as nat),
    decreases n,
{
    if n >= 10 {
        push_decimal(out, n / 10);
    }
    out.append(digit_str(n % 10));
}

fn push_ident(out: &mut String, i: &Identifier)
    ensures
        final(out)@ == old(out)@ + ident_text(*i),
{
    match i {
        Identifier::Numeric(n) => push_decimal(out, *n),
        Identifier::AlphaNumeric(s) => out.append(s.as_str()),
    }
}

fn push_suffix(out: &mut String, sep: &str, ids: &Vec<Identifier>)
    requires
        sep@.len() == 1,
    ensures
        final(out)@ == old(out)@ + suffix(sep@[0], ids@),
{
    if ids.len() == 0 {
        assert(old(out)@ + suffix(sep@[0], ids@) =~= old(out)@);
        return;
    }
    assert(sep@ =~= seq![sep@[0]]);
    out.append(sep);
    let ghost start = out@;
    push_ident(out, &ids[0]);
    assert(ids@.take(1).drop_last() =~= Seq::<Identifier>::empty());
    let mut i: usize = 1;
    while i < ids.len()
        invariant
            1 <= i <= ids@.len(),
            out@ == start + joined(ids@.take(i as int)),
        decreases ids@.len() - i,
    {
        assert(ids@.take(i + 1).drop_last() =~= ids@.take(i as int));
        proof {
            reveal_strlit(".");
        }
        out.append(".");
        push_ident(out, &ids[i]);
        i = i + 1;
    }
    assert(ids@.take(i as int) =~= ids@);
}

impl Version {
    /// The canonical text of the version.
    pub fn to_text(&self) -> (r: String)
        ensures
            r@ == version_text(*self),
    {
        let mut out = String::new();
        proof {
            reveal_strlit(".");
            reveal_strlit("-");
            reveal_strlit("+");
        }
        push_decimal(&mut out, self.major);
        out.append(".");
        push_decimal(&mut out, self.minor);
        out.append(".");
        push_decimal(&mut out, self.patch);
        push_suffix(&mut out, "-", &self.pre);
        push_suffix(&mut out, "+", &self.build);
        assert(out@ =~= version_text(*self));
        out
    }
}

} // verus!
