use vstd::prelude::*;

verus! {

/// The decimal digit character for a value below ten.
pub open spec fn digit_char(d: int) -> char {
    if d == 0 {
        '0'
    } else if d == 1 {
        '1'
    } else if d == 2 {
        '2'
    } else if d == 3 {
        '3'
    } else if d == 4 {
        '4'
    } else if d == 5 {
        '5'
    } else if d == 6 {
        '6'
    } else if d == 7 {
        '7'
    } else if d == 8 {
        '8'
    } else {
        '9'
    }
}

/// The decimal numeral of a number, most significant digit first.
pub open spec fn dec_str(n: int) -> Seq<char>
    decreases n,
{
    if n < 10 {
        seq![digit_char(n)]
    } else {
        dec_str(n / 10).push(digit_char(n % 10))
    }
}

/// The decimal digit character for a value below ten.
fn digit_of(d: usize) -> (r: char)
    requires
        d < 10,
    ensures
        r == digit_char(d as int),
{
    if d == 0 {
        '0'
    } else if d == 1 {
        '1'
    } else if d == 2 {
        '2'
    } else if d == 3 {
        '3'
    } else if d == 4 {
        '4'
    } else if d == 5 {
        '5'
    } else if d == 6 {
        '6'
    } else if d == 7 {
        '7'
    } else if d == 8 {
        '8'
    } else {
        '9'
    }
}

/// The decimal numeral of a number, most significant digit first, as a
/// vector of characters.
pub fn dec_chars(n: usize) -> (r: Vec<char>)
    ensures
        r@ == dec_str(n as int),
{
    let mut m = n;
    let mut ds: Vec<char> = Vec::new();
    proof {
        assert(ds@.reverse() =~= Seq::<char>::empty());
        assert(dec_str(n as int) =~= dec_str(n as int) + ds@.reverse());
    }
    while m >= 10
        invariant
            dec_str(n as int) == dec_str(m as int) + ds@.reverse(),
        decreases m,
    {
        let ghost ds0 = ds@;
        let ghost m0 = m as int;
        let d = digit_of(m % 10);
        ds.push(d);
        m = m / 10;
        proof {
            assert(dec_str(m0) == dec_str(m0 / 10).push(digit_char(m0 % 10)));
            assert(ds@.reverse() =~= seq![d] + ds0.reverse());
            assert(dec_str(m0 / 10).push(d) + ds0.reverse() =~= dec_str(m0 / 10) + (seq![d]
                + ds0.reverse()));
        }
    }
    let ghost ds1 = ds@;
    ds.push(digit_of(m));
    proof {
        assert(dec_str(m as int) == seq![digit_char(m as int)]);
        assert(ds@.reverse() =~= seq![digit_char(m as int)] + ds1.reverse());
        assert(dec_str(n as int) =~= ds@.reverse());
    }
    let mut r: Vec<char> = Vec::new();
    let mut i: usize = ds.len();
    while i > 0
        invariant
            i <= ds@.len(),
            r@ == ds@.reverse().take(ds@.len() - i),
        decreases i,
    {
        i = i - 1;
        r.push(ds[i]);
        proof {
            assert(r@ =~= ds@.reverse().take(ds@.len() - i));
        }
    }
    proof {
        assert(r@ =~= ds@.reverse());
    }
    r
}

/// The decimal numeral of a number as a string.
pub fn usize_to_string(n: usize) -> (r: String)
    ensures
        r@ == dec_str(n as int),
{
    let v = dec_chars(n);
    crate::chars::string_of(&v)
}

} // verus!
