//! Human-readable names for selectors and the text fragments that error
//! messages are assembled from, together with verified decimal formatting.

use vstd::prelude::*;
use vstd::string::StringExecFns;

use crate::types::Selector;

verus! {

/// The decimal digit character for `d` in `0 ..= 9`.
pub open spec fn digit_char(d: int) -> char {
    if d == 0 {
        '0'
    } else if d == 1 {
        '1'
    } else if d == 2 {
        '2'
    } else if d == 3 {
        '3'
    } else if d == 4 {
        '4'
    } else if d == 5 {
        '5'
    } else if d == 6 {
        '6'
    } else if d == 7 {
        '7'
    } else if d == 8 {
        '8'
    } else {
        '9'
    }
}

/// The decimal representation of `n`, without leading zeros.
pub open spec fn dec_str(n: nat) -> Seq<char>
    decreases n,
{
    if n < 10 {
        seq![digit_char(n as int)]
    } else {
        dec_str(n / 10) + seq![digit_char((n % 10) as int)]
    }
}

/// The one-character string for a decimal digit.
fn digit_str(d: usize) -> (r: &'static str)
    requires
        d < 10,
    ensures
        r@ == seq![digit_char(d as int)],
{
    let r: &'static str = if d == 0 {
        "0"
    } else if d == 1 {
        "1"
    } else if d == 2 {
        "2"
    } else if d == 3 {
        "3"
    } else if d == 4 {
        "4"
    } else if d == 5 {
        "5"
    } else if d == 6 {
        "6"
    } else if d == 7 {
        "7"
    } else if d == 8 {
        "8"
    } else {
        "9"
    };
    proof {
        reveal_strlit("0");
        reveal_strlit("1");
        reveal_strlit("2");
        reveal_strlit("3");
        reveal_strlit("4");
        reveal_strlit("5");
        reveal_strlit("6");
        reveal_strlit("7");
        reveal_strlit("8");
        reveal_strlit("9");
        assert(r@ =~= seq![digit_char(d as int)]);
    }
    r
}

/// Formats `n` in decimal.
pub fn usize_to_string(n: usize) -> (r: String)
    ensures
        r@ == dec_str(n as nat),
    decreases n,
{
    if n < 10 {
        let r = String::from_str(digit_str(n));
        proof {
            assert(r@ =~= dec_str(n as nat));
        }
        r
    } else {
        let mut r = usize_to_string(n / 10);
        r.append(digit_str(n % 10));
        proof {
            assert(r@ =~= dec_str(n as nat));
        }
        r
    }
}

/// The comma-separated decimal list of an index set.
pub open spec fn index_list_str(s: Seq<usize>) -> Seq<char>
    decreases s.len(),
{
    if s.len() == 0 {
        Seq::empty()
    } else {
        index_list_str(s.drop_last()) + (if s.len() == 1 {
            Seq::<char>::empty()
        } else {
            ","@
        }) + dec_str(s.last() as nat)
    }
}

/// The decimal form of an optional range bound; an absent bound shows as
/// nothing.
pub open spec fn bound_str(b: Option<usize>) -> Seq<char> {
    match b {
        Option::None => Seq::empty(),
        Option::Some(n) => dec_str(n as nat),
    }
}

/// The human-readable name of a selector. A simple key is quoted; compound
/// selectors are bracket-formatted. `capitalized` selects the sentence-initial
/// form.
pub open spec fn sel_name(s: Selector, capitalized: bool) -> Seq<char> {
    match s {
        Selector::Key(k) => (if capitalized {
            "Node \""@
        } else {
            "node \""@
        }) + k@ + "\""@,
        Selector::ObjectProjection(_) => if capitalized {
            "Object projection"@
        } else {
            "object projection"@
        },
        Selector::IndexSet(idxs) => (if capitalized {
            "Index ["@
        } else {
            "index ["@
        }) + index_list_str(idxs@) + "]"@,
        Selector::Range(start, end) => (if capitalized {
            "Range ["@
        } else {
            "range ["@
        }) + bound_str(start) + ":"@ + bound_str(end) + "]"@,
        Selector::WholeArray => if capitalized {
            "Array"@
        } else {
            "array"@
        },
    }
}

impl Selector {
    /// The human-readable name of this selector, as used in error messages.
    pub fn as_str(&self, capitalized: bool) -> (r: String)
        ensures
            r@ == sel_name(*self, capitalized),
    {
        match self {
            Selector::Key(k) => {
                let mut r = String::from_str(if capitalized {
                    "Node \""
                } else {
                    "node \""
                });
                r.append(k.as_str());
                r.append("\"");
                proof {
                    assert(r@ =~= sel_name(*self, capitalized));
                }
                r
            },
            Selector::ObjectProjection(_) => {
                String::from_str(
                    if capitalized {
                        "Object projection"
                    } else {
                        "object projection"
                    },
                )
            },
            Selector::IndexSet(idxs) => {
                let mut r = String::from_str(if capitalized {
                    "Index ["
                } else {
                    "index ["
                });
                let ghost prefix: Seq<char> = r@;
                let mut i: usize = 0;
                while i < idxs.len()
                    invariant
                        i <= idxs.len(),
                        r@ == prefix + index_list_str(idxs@.take(i as int)),
                    decreases idxs.len() - i,
                {
                    if i > 0 {
                        r.append(",");
                    }
                    let n = idxs[i];
                    let digits = usize_to_string(n);
                    r.append(digits.as_str());
                    proof {
                        let t = idxs@.take(i + 1 as int);
                        assert(t.drop_last() =~= idxs@.take(i as int));
                        assert(t.last() == idxs@[i as int]);
                        assert(r@ =~= prefix + index_list_str(t));
                    }
                    i += 1;
                }
                r.append("]");
                proof {
                    assert(idxs@.take(idxs@.len() as int) =~= idxs@);
                    assert(r@ =~= sel_name(*self, capitalized));
                }
                r
            },
            Selector::Range(start, end) => {
                let mut r = String::from_str(if capitalized {
                    "Range ["
                } else {
                    "range ["
                });
                if let Option::Some(s) = start {
                    let digits = usize_to_string(*s);
                    r.append(digits.as_str());
                }
                r.append(":");
                if let Option::Some(e) = end {
                    let digits = usize_to_string(*e);
                    r.append(digits.as_str());
                }
                r.append("]");
                proof {
                    assert(r@ =~= sel_name(*self, capitalized));
                }
                r
            },
            Selector::WholeArray => {
                String::from_str(if capitalized {
                    "Array"
                } else {
                    "array"
                })
            },
        }
    }
}

} // verus!
