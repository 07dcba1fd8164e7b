//! Connect codes: a compact base-24 encoding of the server's address and
//! port, using the letters A–Z without I and O.
//!
//! The first character names the compression format: `A` for 192.168.0.x
//! and `B` for 192.168.1.x (one encoded octet), `C` for 10.x.x.x and `D`
//! for 172.x.x.x (three octets), `F` for anything else (all four octets).
//! The port follows as an offset from the default HTTPS port: nothing when
//! equal, one to three characters for growing offsets, else the absolute
//! port in four characters.

use vstd::prelude::*;
use crate::text::{all_digits, chars_of, digit_run, digits_val, is_digit, string_of};
use crate::classifier::{seq_views, split_seq};

verus! {

/// The default port of the HTTPS listener.
pub const DEFAULT_HTTPS_PORT: u16 = 8443;

/// The base-24 alphabet: A to Z without I and O.
pub open spec fn base24_char(d: int) -> char {
    if d == 0 {
        'A'
    } else if d == 1 {
        'B'
    } else if d == 2 {
        'C'
    } else if d == 3 {
        'D'
    } else if d == 4 {
        'E'
    } else if d == 5 {
        'F'
    } else if d == 6 {
        'G'
    } else if d == 7 {
        'H'
    } else if d == 8 {
        'J'
    } else if d == 9 {
        'K'
    } else if d == 10 {
        'L'
    } else if d == 11 {
        'M'
    } else if d == 12 {
        'N'
    } else if d == 13 {
        'P'
    } else if d == 14 {
        'Q'
    } else if d == 15 {
        'R'
    } else if d == 16 {
        'S'
    } else if d == 17 {
        'T'
    } else if d == 18 {
        'U'
    } else if d == 19 {
        'V'
    } else if d == 20 {
        'W'
    } else if d == 21 {
        'X'
    } else if d == 22 {
        'Y'
    } else {
        'Z'
    }
}

/// The index of a base-24 character, `-1` for anything else.
pub open spec fn base24_index(c: char) -> int {
    if c == 'A' {
        0
    } else if c == 'B' {
        1
    } else if c == 'C' {
        2
    } else if c == 'D' {
        3
    } else if c == 'E' {
        4
    } else if c == 'F' {
        5
    } else if c == 'G' {
        6
    } else if c == 'H' {
        7
    } else if c == 'J' {
        8
    } else if c == 'K' {
        9
    } else if c == 'L' {
        10
    } else if c == 'M' {
        11
    } else if c == 'N' {
        12
    } else if c == 'P' {
        13
    } else if c == 'Q' {
        14
    } else if c == 'R' {
        15
    } else if c == 'S' {
        16
    } else if c == 'T' {
        17
    } else if c == 'U' {
        18
    } else if c == 'V' {
        19
    } else if c == 'W' {
        20
    } else if c == 'X' {
        21
    } else if c == 'Y' {
        22
    } else if c == 'Z' {
        23
    } else {
        -1
    }
}

/// The base-24 digits of `n`, most significant first; `A` for zero.
pub open spec fn base24_seq(n: nat) -> Seq<char>
    decreases n,
{
    if n < 24 {
        seq![base24_char(n as int)]
    } else {
        base24_seq(n / 24).push(base24_char((n % 24) as int))
    }
}

fn base24_char_exec(d: u32) -> (r: char)
    requires
        d < 24,
    ensures
        r == base24_char(d as int),
{
    if d == 0 {
        'A'
    } else if d == 1 {
        'B'
    } else if d == 2 {
        'C'
    } else if d == 3 {
        'D'
    } else if d == 4 {
        'E'
    } else if d == 5 {
        'F'
    } else if d == 6 {
        'G'
    } else if d == 7 {
        'H'
    } else if d == 8 {
        'J'
    } else if d == 9 {
        'K'
    } else if d == 10 {
        'L'
    } else if d == 11 {
        'M'
    } else if d == 12 {
        'N'
    } else if d == 13 {
        'P'
    } else if d == 14 {
        'Q'
    } else if d == 15 {
        'R'
    } else if d == 16 {
        'S'
    } else if d == 17 {
        'T'
    } else if d == 18 {
        'U'
    } else if d == 19 {
        'V'
    } else if d == 20 {
        'W'
    } else if d == 21 {
        'X'
    } else if d == 22 {
        'Y'
    } else {
        'Z'
    }
}

fn base24_index_exec(c: char) -> (r: i32)
    ensures
        r as int == base24_index(c),
{
    if c == 'A' {
        0
    } else if c == 'B' {
        1
    } else if c == 'C' {
        2
    } else if c == 'D' {
        3
    } else if c == 'E' {
        4
    } else if c == 'F' {
        5
    } else if c == 'G' {
        6
    } else if c == 'H' {
        7
    } else if c == 'J' {
        8
    } else if c == 'K' {
        9
    } else if c == 'L' {
        10
    } else if c == 'M' {
        11
    } else if c == 'N' {
        12
    } else if c == 'P' {
        13
    } else if c == 'Q' {
        14
    } else if c == 'R' {
        15
    } else if c == 'S' {
        16
    } else if c == 'T' {
        17
    } else if c == 'U' {
        18
    } else if c == 'V' {
        19
    } else if c == 'W' {
        20
    } else if c == 'X' {
        21
    } else if c == 'Y' {
        22
    } else if c == 'Z' {
        23
    } else {
        -1
    }
}

fn base24_vec(n: u32) -> (r: Vec<char>)
    ensures
        r@ == base24_seq(n as nat),
    decreases n,
{
    if n < 24 {
        let mut r: Vec<char> = Vec::new();
        r.push(base24_char_exec(n));
        proof {
            assert(r@ =~= base24_seq(n as nat));
        }
        r
    } else {
        let mut r = base24_vec(n / 24);
        r.push(base24_char_exec(n % 24));
        r
    }
}

/// A number written in base 24.
pub fn number_to_base24(num: u32) -> (r: String)
    ensures
        r@ == base24_seq(num as nat),
{
    let v = base24_vec(num);
    string_of(&v)
}

/// The value a base-24 string denotes; characters outside the alphabet are
/// skipped.
pub open spec fn base24_val(s: Seq<char>) -> nat
    decreases s.len(),
{
    if s.len() == 0 {
        0
    } else {
        let rest = base24_val(s.drop_last());
        if base24_index(s.last()) >= 0 {
            (rest * 24 + base24_index(s.last())) as nat
        } else {
            rest
        }
    }
}

/// Read a base-24 string back into a number.
#[verifier::loop_isolation(false)]
pub fn base24_to_number(s: &str) -> (r: u32)
    requires
        base24_val(s@) <= u32::MAX,
    ensures
        r == base24_val(s@),
{
    let v = chars_of(s);
    let mut acc: u32 = 0;
    let mut i: usize = 0;
    while i < v.len()
        invariant
            i <= v@.len(),
            acc == base24_val(v@.subrange(0, i as int)),
        decreases v@.len() - i,
    {
        let ghost pre = v@.subrange(0, i as int);
        let d = base24_index_exec(v[i]);
        proof {
            assert(v@.subrange(0, i + 1).drop_last() =~= pre);
            assert(v@.subrange(0, i + 1).last() == v@[i as int]);
            lemma_base24_prefix(v@, i as int + 1);
        }
        if d >= 0 {
            acc = acc * 24 + (d as u32);
        }
        i = i + 1;
    }
    proof {
        assert(v@.subrange(0, v@.len() as int) =~= v@);
    }
    acc
}

/// A longer prefix never has a smaller base-24 value.
proof fn lemma_base24_prefix(s: Seq<char>, n: int)
    requires
        0 <= n <= s.len(),
    ensures
        base24_val(s.subrange(0, n)) <= base24_val(s),
    decreases s.len() - n,
{
    if n < s.len() {
        lemma_base24_prefix(s, n + 1);
        let a = s.subrange(0, n);
        let b = s.subrange(0, n + 1);
        assert(b.drop_last() =~= a);
        if base24_index(b.last()) >= 0 {
            assert(base24_val(a) <= base24_val(a) * 24) by (nonlinear_arith)
                requires
                    base24_val(a) >= 0,
            ;
        }
    } else {
        assert(s.subrange(0, n) =~= s);
    }
}

// ---------- the address side ----------

/// The four dot-separated decimal octets of an address, when all four parse
/// as bytes.
pub open spec fn parsed_octet(seg: Seq<char>) -> Option<int> {
    if seg.len() >= 1 && all_digits(seg) && digits_val(seg) <= 255 {
        Some(digits_val(seg) as int)
    } else {
        None
    }
}

/// One octet written as exactly two base-24 characters.
pub open spec fn octet_code(o: int) -> Seq<char> {
    if o < 24 {
        seq!['A', base24_char(o)]
    } else {
        base24_seq(o as nat)
    }
}

/// One octet padded at the end to two characters, as the short formats
/// write their single octet.
pub open spec fn octet_code_tail_padded(o: int) -> Seq<char> {
    if o < 24 {
        seq![base24_char(o), 'A']
    } else {
        base24_seq(o as nat)
    }
}

/// The compressed address: `A`/`B` for the two home subnets with the last
/// octet, `C`/`D` for 10.x and 172.x with three octets, `F` with all four.
pub open spec fn ip_code_of(o0: int, o1: int, o2: int, o3: int) -> Seq<char> {
    if o0 == 192 && o1 == 168 && o2 == 0 {
        seq!['A'] + octet_code_tail_padded(o3)
    } else if o0 == 192 && o1 == 168 && o2 == 1 {
        seq!['B'] + octet_code_tail_padded(o3)
    } else if o0 == 10 {
        seq!['C'] + octet_code(o1) + octet_code(o2) + octet_code(o3)
    } else if o0 == 172 {
        seq!['D'] + octet_code(o1) + octet_code(o2) + octet_code(o3)
    } else {
        seq!['F'] + octet_code(o0) + octet_code(o1) + octet_code(o2) + octet_code(o3)
    }
}

/// The octets of an address string: exactly four dot-separated parseable
/// segments.
pub open spec fn ip_octets_of(s: Seq<char>) -> Option<(int, int, int, int)> {
    let segs = split_seq(s, '.');
    if segs.len() == 4 && parsed_octet(segs[0]) is Some && parsed_octet(segs[1]) is Some
        && parsed_octet(segs[2]) is Some && parsed_octet(segs[3]) is Some {
        Some(
            (
                parsed_octet(segs[0])->Some_0,
                parsed_octet(segs[1])->Some_0,
                parsed_octet(segs[2])->Some_0,
                parsed_octet(segs[3])->Some_0,
            ),
        )
    } else {
        None
    }
}

fn octet_code_exec(o: u32) -> (r: Vec<char>)
    requires
        o <= 255,
    ensures
        r@ == octet_code(o as int),
{
    if o < 24 {
        let mut r: Vec<char> = Vec::new();
        r.push('A');
        r.push(base24_char_exec(o));
        proof {
            assert(r@ =~= octet_code(o as int));
        }
        r
    } else {
        base24_vec(o)
    }
}

fn octet_code_tail_exec(o: u32) -> (r: Vec<char>)
    requires
        o <= 255,
    ensures
        r@ == octet_code_tail_padded(o as int),
{
    if o < 24 {
        let mut r: Vec<char> = Vec::new();
        r.push(base24_char_exec(o));
        r.push('A');
        proof {
            assert(r@ =~= octet_code_tail_padded(o as int));
        }
        r
    } else {
        base24_vec(o)
    }
}

fn parse_octet_exec(seg: &Vec<char>) -> (r: Option<u32>)
    ensures
        match r {
            Some(o) => parsed_octet(seg@) == Some(o as int) && o <= 255,
            None => parsed_octet(seg@) is None,
        },
{
    proof {
        crate::text::lemma_digit_run_bounds(seg@, 0);
    }
    let run = digit_run(seg, 0);
    if run != seg.len() || seg.len() == 0 {
        proof {
            if run < seg@.len() {
                assert(!is_digit(seg@[run as int]));
            }
        }
        return None;
    }
    proof {
        crate::text::lemma_digit_run_bounds(seg@, 0);
        assert(all_digits(seg@.subrange(0, seg@.len() as int)));
        assert(seg@.subrange(0, seg@.len() as int) =~= seg@);
    }
    match crate::text::parse_digits(seg, 0, seg.len()) {
        Some(n) => {
            if n <= 255 {
                Some(n)
            } else {
                None
            }
        },
        None => None,
    }
}

fn append_vec(out: &mut Vec<char>, add: &Vec<char>)
    ensures
        final(out)@ == old(out)@ + add@,
{
    let mut i: usize = 0;
    while i < add.len()
        invariant
            i <= add@.len(),
            out@ == old(out)@ + add@.subrange(0, i as int),
        decreases add@.len() - i,
    {
        out.push(add[i]);
        i = i + 1;
        proof {
            assert(out@ =~= old(out)@ + add@.subrange(0, i as int));
        }
    }
    proof {
        assert(out@ =~= old(out)@ + add@);
    }
}

/// Compress an address into its code; an unparseable address falls back to
/// the uncompressed format with a fixed body.
pub fn compress_ip_to_code(ip: &str) -> (r: String)
    ensures
        r@ == (match ip_octets_of(ip@) {
            Some(o) => ip_code_of(o.0, o.1, o.2, o.3),
            None => seq!['F'] + "AAAAAAAA"@,
        }),
{
    let ipv = chars_of(ip);
    let segs = split_exec_local(&ipv, '.');
    proof {
        assert(seq_views(segs@) =~= split_seq(ip@, '.'));
    }
    if segs.len() != 4 {
        return fallback_code();
    }
    let o0 = parse_octet_exec(&segs[0]);
    let o1 = parse_octet_exec(&segs[1]);
    let o2 = parse_octet_exec(&segs[2]);
    let o3 = parse_octet_exec(&segs[3]);
    match (o0, o1, o2, o3) {
        (Some(a), Some(b), Some(c), Some(d)) => {
            let mut out: Vec<char> = Vec::new();
            if a == 192 && b == 168 && c == 0 {
                out.push('A');
                let t = octet_code_tail_exec(d);
                append_vec(&mut out, &t);
            } else if a == 192 && b == 168 && c == 1 {
                out.push('B');
                let t = octet_code_tail_exec(d);
                append_vec(&mut out, &t);
            } else if a == 10 {
                out.push('C');
                let t1 = octet_code_exec(b);
                append_vec(&mut out, &t1);
                let t2 = octet_code_exec(c);
                append_vec(&mut out, &t2);
                let t3 = octet_code_exec(d);
                append_vec(&mut out, &t3);
            } else if a == 172 {
                out.push('D');
                let t1 = octet_code_exec(b);
                append_vec(&mut out, &t1);
                let t2 = octet_code_exec(c);
                append_vec(&mut out, &t2);
                let t3 = octet_code_exec(d);
                append_vec(&mut out, &t3);
            } else {
                out.push('F');
                let t0 = octet_code_exec(a);
                append_vec(&mut out, &t0);
                let t1 = octet_code_exec(b);
                append_vec(&mut out, &t1);
                let t2 = octet_code_exec(c);
                append_vec(&mut out, &t2);
                let t3 = octet_code_exec(d);
                append_vec(&mut out, &t3);
            }
            proof {
                assert(out@ =~= ip_code_of(a as int, b as int, c as int, d as int));
            }
            string_of(&out)
        },
        _ => fallback_code(),
    }
}

fn fallback_code() -> (r: String)
    ensures
        r@ == seq!['F'] + "AAAAAAAA"@,
{
    let mut v = chars_of("AAAAAAAA");
    let mut out: Vec<char> = Vec::new();
    out.push('F');
    append_vec(&mut out, &v);
    proof {
        assert(out@ =~= seq!['F'] + "AAAAAAAA"@);
    }
    string_of(&out)
}

/// A fresh copy of the classifier's splitter, for address segments.
fn split_exec_local(v: &Vec<char>, c: char) -> (r: Vec<Vec<char>>)
    ensures
        r@.len() == split_seq(v@, c).len(),
        forall|i: int| 0 <= i < r@.len() ==> r@[i]@ == split_seq(v@, c)[i],
{
    crate::classifier::split_path_segments(v, c)
}

// ---------- the port side ----------

/// A number padded at the front with `A` to a width.
pub open spec fn padded_code(n: nat, w: int) -> Seq<char> {
    let d = base24_seq(n);
    if d.len() < w {
        pad_a((w - d.len()) as nat) + d
    } else {
        d
    }
}

pub open spec fn pad_a(n: nat) -> Seq<char>
    decreases n,
{
    if n == 0 {
        Seq::empty()
    } else {
        pad_a((n - 1) as nat).push('A')
    }
}

/// The compressed port: nothing at the default port, one to three
/// characters for offsets below 24, 576 and 13824, else the absolute port
/// in four.
pub open spec fn port_code_of(port: int) -> Seq<char> {
    if port < DEFAULT_HTTPS_PORT {
        padded_code(port as nat, 4)
    } else {
        let off = port - DEFAULT_HTTPS_PORT;
        if off == 0 {
            Seq::empty()
        } else if off < 24 {
            padded_code(off as nat, 1)
        } else if off < 576 {
            padded_code(off as nat, 2)
        } else if off < 13824 {
            padded_code(off as nat, 3)
        } else {
            padded_code(port as nat, 4)
        }
    }
}

fn padded_code_exec(n: u32, w: usize) -> (r: Vec<char>)
    requires
        w <= 8,
    ensures
        r@ == padded_code(n as nat, w as int),
{
    let d = base24_vec(n);
    if d.len() < w {
        let mut out: Vec<char> = Vec::new();
        let pad = w - d.len();
        let mut i: usize = 0;
        while i < pad
            invariant
                i <= pad,
                out@ == pad_a(i as nat),
            decreases pad - i,
        {
            out.push('A');
            i = i + 1;
        }
        append_vec(&mut out, &d);
        out
    } else {
        d
    }
}

/// Compress a port into its code.
pub fn compress_port_to_code(port: u16) -> (r: String)
    ensures
        r@ == port_code_of(port as int),
{
    if port < DEFAULT_HTTPS_PORT {
        let v = padded_code_exec(port as u32, 4);
        return string_of(&v);
    }
    let off: u16 = port - DEFAULT_HTTPS_PORT;
    if off == 0 {
        String::new()
    } else if off < 24 {
        let v = padded_code_exec(off as u32, 1);
        string_of(&v)
    } else if off < 576 {
        let v = padded_code_exec(off as u32, 2);
        string_of(&v)
    } else if off < 13824 {
        let v = padded_code_exec(off as u32, 3);
        string_of(&v)
    } else {
        let v = padded_code_exec(port as u32, 4);
        string_of(&v)
    }
}

/// The whole connect code: address code then port code.
pub fn compress_to_connect_code(ip: &str, port: u16) -> (r: String)
    ensures
        r@ == (match ip_octets_of(ip@) {
            Some(o) => ip_code_of(o.0, o.1, o.2, o.3),
            None => seq!['F'] + "AAAAAAAA"@,
        }) + port_code_of(port as int),
{
    let mut code = compress_ip_to_code(ip);
    let port_code = compress_port_to_code(port);
    code.append(port_code.as_str());
    code
}

} // verus!
