use vstd::prelude::*;
use crate::text::string_from_chars;

verus! {

/// The character of the standard base64 alphabet for the six-bit value `v`.
pub open spec fn b64_char(v: nat) -> char {
    if v < 26 {
        (65 + v) as char
    } else if v < 52 {
        (97 + (v - 26)) as char
    } else if v < 62 {
        (48 + (v - 52)) as char
    } else if v == 62 {
        '+'
    } else {
        '/'
    }
}

/// Standard base64 with `=` padding: each group of three bytes becomes four characters.
pub open spec fn base64(d: Seq<u8>) -> Seq<char>
    decreases d.len(),
{
    if d.len() == 0 {
        Seq::empty()
    } else if d.len() == 1 {
        seq![b64_char(d[0] as nat / 4), b64_char((d[0] as nat % 4) * 16), '=', '=']
    } else if d.len() == 2 {
        seq![
            b64_char(d[0] as nat / 4),
            b64_char((d[0] as nat % 4) * 16 + d[1] as nat / 16),
            b64_char((d[1] as nat % 16) * 4),
            '=',
        ]
    } else {
        seq![
            b64_char(d[0] as nat / 4),
            b64_char((d[0] as nat % 4) * 16 + d[1] as nat / 16),
            b64_char((d[1] as nat % 16) * 4 + d[2] as nat / 64),
            b64_char(d[2] as nat % 64),
        ] + base64(d.skip(3))
    }
}

fn sextet_char(v: u32) -> (c: char)
    requires
        v < 64,
    ensures
        c == b64_char(v as nat),
{
    if v < 26 {
        ((65 + v) as u8) as char
    } else if v < 52 {
        ((97 + (v - 26)) as u8) as char
    } else if v < 62 {
        ((48 + (v - 52)) as u8) as char
    } else if v == 62 {
        '+'
    } else {
        '/'
    }
}

/// Encodes bytes as standard base64 with padding.
pub fn base64_encode(data: &[u8]) -> (r: String)
    ensures
        r@ == base64(data@),
{
    let mut out: Vec<char> = Vec::new();
    let n = data.len();
    let mut i: usize = 0;
    assert(data@.skip(0) =~= data@);
    while i < n
        invariant
            i <= n == data@.len(),
            out@ + base64(data@.skip(i as int)) == base64(data@),
        decreases n - i,
    {
        let ghost rest = data@.skip(i as int);
        let ghost before = out@;
        let b0 = data[i] as u32;
        out.push(sextet_char(b0 / 4));
        if n - i == 1 {
            out.push(sextet_char((b0 % 4) * 16));
            out.push('=');
            out.push('=');
            i = n;
        } else {
            let b1 = data[i + 1] as u32;
            out.push(sextet_char((b0 % 4) * 16 + b1 / 16));
            if n - i == 2 {
                out.push(sextet_char((b1 % 16) * 4));
                out.push('=');
                i = n;
            } else {
                let b2 = data[i + 2] as u32;
                out.push(sextet_char((b1 % 16) * 4 + b2 / 64));
                out.push(sextet_char(b2 % 64));
                assert(rest.skip(3) =~= data@.skip(i + 3));
                i = i + 3;
            }
        }
        assert(data@.skip(i as int).len() == 0 ==> base64(data@.skip(i as int)) =~= Seq::<char>::empty());
        assert(out@ + base64(data@.skip(i as int)) =~= before + base64(rest));
    }
    assert(data@.skip(n as int) =~= Seq::<u8>::empty());
    assert(out@ + Seq::<char>::empty() =~= out@);
    string_from_chars(&out)
}

} // verus!
