use vstd::prelude::*;
use vstd::string::StringExecFns;

verus! {

/// The decimal digit `d`.
pub open spec fn digit_char(d: nat) -> char {
    if d == 0 {
        '0'
    } else if d == 1 {
        '1'
    } else if d == 2 {
        '2'
    } else if d == 3 {
        '3'
    } else if d == 4 {
        '4'
    } else if d == 5 {
        '5'
    } else if d == 6 {
        '6'
    } else if d == 7 {
        '7'
    } else if d == 8 {
        '8'
    } else {
        '9'
    }
}

/// The decimal digits of `n`, without leading zeros.
pub open spec fn decimal(n: nat) -> Seq<char>
    decreases n,
{
    if n < 10 {
        seq![digit_char(n)]
    } else {
        decimal(n / 10).push(digit_char(n % 10))
    }
}

/// The decimal digits of `n`, left-padded with zeros to at least `width` characters.
pub open spec fn zero_padded(n: nat, width: nat) -> Seq<char> {
    let d = decimal(n);
    if d.len() < width {
        Seq::new((width - d.len()) as nat, |_i: int| '0') + d
    } else {
        d
    }
}

/// A duration of `nanos` nanoseconds as `HH:MM:SS:mmm.uuu.nnn`: hours, minutes,
/// seconds, then milli-, micro- and nanoseconds.
pub open spec fn clock_text(nanos: nat) -> Seq<char> {
    let secs = nanos / 1_000_000_000;
    let sub = nanos % 1_000_000_000;
    zero_padded(secs / 3600, 2) + seq![':'] + zero_padded((secs / 60) % 60, 2) + seq![':']
        + zero_padded(secs % 60, 2) + seq![':'] + zero_padded(sub / 1_000_000, 3) + seq!['.']
        + zero_padded((sub / 1000) % 1000, 3) + seq!['.'] + zero_padded(sub % 1000, 3)
}

/// Display of a duration held as a count of nanoseconds.
pub trait DurationExt {
    /// The duration in nanoseconds.
    spec fn spec_nanos(&self) -> nat;

    fn display_ext(&self) -> (r: String)
        ensures
            r@ == clock_text(self.spec_nanos()),
    ;
}

impl DurationExt for u64 {
    open spec fn spec_nanos(&self) -> nat {
        *self as nat
    }

    fn display_ext(&self) -> (r: String) {
        let nanos = *self;
        let secs = nanos / 1_000_000_000;
        let sub = nanos % 1_000_000_000;
        let mut s = String::new();
        push_padded(&mut s, secs / 3600, 2);
        s.append(":");
        push_padded(&mut s, (secs / 60) % 60, 2);
        s.append(":");
        push_padded(&mut s, secs % 60, 2);
        s.append(":");
        push_padded(&mut s, sub / 1_000_000, 3);
        s.append(".");
        push_padded(&mut s, (sub / 1000) % 1000, 3);
        s.append(".");
        push_padded(&mut s, sub % 1000, 3);
        proof {
            reveal_strlit(":");
            reveal_strlit(".");
            assert(s@ =~= clock_text(nanos as nat));
        }
        s
    }
}

fn digit_str(d: u64) -> (r: &'static str)
    requires
        d < 10,
    ensures
        r@ == seq![digit_char(d as nat)],
{
    proof {
        reveal_strlit("0");
        reveal_strlit("1");
        reveal_strlit("2");
        reveal_strlit("3");
        reveal_strlit("4");
        reveal_strlit("5");
        reveal_strlit("6");
        reveal_strlit("7");
        reveal_strlit("8");
        reveal_strlit("9");
    }
    if d == 0 {
        "0"
    } else if d == 1 {
        "1"
    } else if d == 2 {
        "2"
    } else if d == 3 {
        "3"
    } else if d == 4 {
        "4"
    } else if d == 5 {
        "5"
    } else if d == 6 {
        "6"
    } else if d == 7 {
        "7"
    } else if d == 8 {
        "8"
    } else {
        "9"
    }
}

fn push_decimal(s: &mut String, n: u64)
    ensures
        final(s)@ == old(s)@ + decimal(n as nat),
    decreases n,
{
    if n >= 10 {
        push_decimal(s, n / 10);
    }
    s.append(digit_str(n % 10));
    proof {
        if n < 10 {
            assert(n % 10 == n);
        }
    }
    assert(final(s)@ =~= old(s)@ + decimal(n as nat)) by {
        if n >= 10 {
            assert(decimal(n as nat) == decimal((n / 10) as nat).push(digit_char((n % 10) as nat)));
        }
    }
}

fn decimal_len(n: u64) -> (r: usize)
    ensures
        r == decimal(n as nat).len(),
        r <= 20,
    decreases n,
{
    if n < 10 {
        1
    } else {
        let k = decimal_len(n / 10);
        proof {
            lemma_decimal_len_bound(n as nat);
        }
        k + 1
    }
}

proof fn lemma_decimal_len_bound(n: nat)
    requires
        n <= u64::MAX,
    ensures
        decimal(n).len() <= 20,
{
    assert(pow10(20) == 100_000_000_000_000_000_000nat) by {
        reveal_with_fuel(pow10, 21);
    }
    lemma_decimal_len_log(n, 20);
}

proof fn lemma_decimal_len_log(n: nat, k: nat)
    requires
        k >= 1,
        n < pow10(k),
    ensures
        decimal(n).len() <= k,
    decreases n,
{
    if n >= 10 {
        if k == 1 {
            assert(pow10(1) == 10) by {
                reveal_with_fuel(pow10, 2);
            }
        }
        let p = pow10((k - 1) as nat);
        assert(n / 10 < p) by (nonlinear_arith)
            requires
                n < 10 * p,
        ;
        lemma_decimal_len_log(n / 10, (k - 1) as nat);
    }
}

spec fn pow10(k: nat) -> nat
    decreases k,
{
    if k == 0 {
        1
    } else {
        10 * pow10((k - 1) as nat)
    }
}

fn push_padded(s: &mut String, n: u64, width: usize)
    ensures
        final(s)@ == old(s)@ + zero_padded(n as nat, width as nat),
{
    let len = decimal_len(n);
    let ghost start = s@;
    if len < width {
        let mut i: usize = len;
        while i < width
            invariant
                len <= i <= width,
                s@ == start + Seq::new((i - len) as nat, |_j: int| '0'),
            decreases width - i,
        {
            proof {
                reveal_strlit("0");
            }
            s.append("0");
            assert(s@ =~= start + Seq::new((i + 1 - len) as nat, |_j: int| '0'));
            i = i + 1;
        }
    }
    let ghost mid = s@;
    push_decimal(s, n);
    assert(s@ =~= start + zero_padded(n as nat, width as nat));
}

} // verus!
