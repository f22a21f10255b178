use vstd::prelude::*;

verus! {

/// The decimal digit character for one digit value.
pub open spec fn dec_digit(d: int) -> char {
    if d == 0 {
        '0'
    } else if d == 1 {
        '1'
    } else if d == 2 {
        '2'
    } else if d == 3 {
        '3'
    } else if d == 4 {
        '4'
    } else if d == 5 {
        '5'
    } else if d == 6 {
        '6'
    } else if d == 7 {
        '7'
    } else if d == 8 {
        '8'
    } else {
        '9'
    }
}

/// The decimal representation of a number, most significant digit first,
/// with no leading zeros (a lone zero for 0).
pub open spec fn spec_dec(n: int) -> Seq<char>
    decreases n,
{
    if n < 10 {
        seq![dec_digit(n)]
    } else {
        spec_dec(n / 10).push(dec_digit(n % 10))
    }
}

/// Relies on String::push from std: appends exactly the given character.
#[verifier::external_body]
pub(crate) fn push_char(s: &mut String, c: char)
    ensures
        final(s)@ == old(s)@.push(c),
{
    s.push(c);
}

fn digit_char(d: u64) -> (c: char)
    requires
        d < 10,
    ensures
        c == dec_digit(d as int),
{
    match d {
        0 => '0',
        1 => '1',
        2 => '2',
        3 => '3',
        4 => '4',
        5 => '5',
        6 => '6',
        7 => '7',
        8 => '8',
        _ => '9',
    }
}

/// Formats a number in decimal.
pub fn u64_to_string(n: u64) -> (r: String)
    ensures
        r@ == spec_dec(n as int),
{
    let mut digits: Vec<char> = Vec::new();
    let mut m = n;
    digits.push(digit_char(m % 10));
    m = m / 10;
    proof {
        assert(digits@.reverse() =~= seq![dec_digit(n as int % 10)]);
        if n < 10 {
            assert(spec_dec(n as int) == seq![dec_digit(n as int)]);
        }
    }
    while m > 0
        invariant
            m > 0 ==> spec_dec(n as int) == spec_dec(m as int) + digits@.reverse(),
            m == 0 ==> spec_dec(n as int) == digits@.reverse(),
            digits@.len() >= 1,
        decreases m,
    {
        let d = m % 10;
        let ghost before = digits@;
        digits.push(digit_char(d));
        m = m / 10;
        proof {
            assert(digits@.reverse() =~= seq![dec_digit(d as int)] + before.reverse());
            if m > 0 {
                assert(spec_dec((m * 10 + d) as int) == spec_dec(m as int).push(
                    dec_digit(d as int),
                ));
                assert(spec_dec(m as int).push(dec_digit(d as int)) + before.reverse()
                    =~= spec_dec(m as int) + digits@.reverse());
            } else {
                assert(spec_dec(d as int) + before.reverse() =~= digits@.reverse());
            }
        }
    }
    let mut r = String::new();
    let len = digits.len();
    let mut j: usize = 0;
    while j < len
        invariant
            len == digits@.len(),
            j <= len,
            r@ =~= digits@.reverse().take(j as int),
        decreases len - j,
    {
        push_char(&mut r, digits[len - 1 - j]);
        j += 1;
        proof {
            assert(r@ =~= digits@.reverse().take(j as int));
        }
    }
    proof {
        assert(digits@.reverse().take(len as int) =~= digits@.reverse());
    }
    r
}

/// A string of `n` copies of one character.
pub fn repeat_char(c: char, n: usize) -> (r: String)
    ensures
        r@ == Seq::new(n as nat, |i: int| c),
{
    let mut r = String::new();
    let mut k: usize = 0;
    while k < n
        invariant
            k <= n,
            r@ =~= Seq::new(k as nat, |i: int| c),
        decreases n - k,
    {
        push_char(&mut r, c);
        k += 1;
        proof {
            assert(r@ =~= Seq::new(k as nat, |i: int| c));
        }
    }
    r
}

/// The items joined with one semicolon between neighbours.
pub open spec fn join_codes(items: Seq<Seq<char>>) -> Seq<char>
    decreases items.len(),
{
    if items.len() == 0 {
        Seq::empty()
    } else if items.len() == 1 {
        items[0]
    } else {
        join_codes(items.drop_last()) + seq![';'] + items.last()
    }
}

/// Appends one more code to a semicolon-joined list under construction;
/// `any` says whether the list already holds an item.
pub(crate) fn append_code(out: &mut String, code: &str, any: bool, Ghost(gl): Ghost<
    Seq<Seq<char>>,
>)
    requires
        old(out)@ == join_codes(gl),
        any <==> gl.len() > 0,
    ensures
        final(out)@ == join_codes(gl.push(code@)),
{
    proof {
        assert(gl.push(code@).drop_last() =~= gl);
    }
    if any {
        out.append(";");
        proof {
            reveal_strlit(";");
            assert(old(out)@ + ";"@ + code@ =~= join_codes(gl) + seq![';'] + code@);
        }
    }
    out.append(code);
}

} // verus!
