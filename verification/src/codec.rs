//! The byte codec for the library's values: the form in which boards and
//! session state are stored in the key-value store, and in which payloads
//! travel on the broker streams. Little-endian length-prefixed encoding;
//! every decoder returns the decoded value and how many bytes it consumed,
//! and decoding an encoding returns the encoded value exactly.

use vstd::prelude::*;

use crate::board::{BoardV, Floor, Move, MoveType, Player, Tile};
use crate::piece::{Piece, PieceType, SetupPieceType};
use crate::vec2::Vec2;

verus! {

broadcast use vstd::std_specs::vec::axiom_spec_len;

pub open spec fn pow256(n: nat) -> nat
    decreases n,
{
    if n == 0 {
        1
    } else {
        256 * pow256((n - 1) as nat)
    }
}

/// `x` modulo 256 to the `n`, as `n` little-endian bytes.
pub open spec fn enc_le(x: nat, n: nat) -> Seq<u8>
    decreases n,
{
    if n == 0 {
        Seq::empty()
    } else {
        seq![(x % 256) as u8] + enc_le(x / 256, (n - 1) as nat)
    }
}

/// `n` little-endian bytes read off the front of `s`.
pub open spec fn dec_le(s: Seq<u8>, n: nat) -> Option<(nat, int)>
    decreases n,
{
    if n == 0 {
        Some((0, 0))
    } else if s.len() < 1 {
        None
    } else {
        match dec_le(s.skip(1), (n - 1) as nat) {
            Some((v, c)) => Some(((s[0] + 256 * v) as nat, c + 1)),
            None => None,
        }
    }
}

pub proof fn lemma_pow256_mono(a: nat, b: nat)
    requires
        a <= b,
    ensures
        pow256(a) <= pow256(b),
    decreases b,
{
    if a < b {
        lemma_pow256_mono(a, (b - 1) as nat);
    }
}

/// A successful little-endian read consumes exactly `n` bytes, needs that
/// many, and yields a value below 256 to the `n`.
pub proof fn lemma_dec_le_bounds(s: Seq<u8>, n: nat)
    ensures
        dec_le(s, n) is Some ==> {
            &&& dec_le(s, n)->Some_0.1 == n
            &&& n <= s.len()
            &&& dec_le(s, n)->Some_0.0 < pow256(n)
        },
    decreases n,
{
    if n > 0 && s.len() >= 1 {
        lemma_dec_le_bounds(s.skip(1), (n - 1) as nat);
    }
}

/// Little-endian round trip: reading `n` bytes off `enc_le(x, n)` followed
/// by anything returns `x` itself when `x` fits.
pub proof fn lemma_le_round_trip(x: nat, n: nat, rest: Seq<u8>)
    requires
        x < pow256(n),
    ensures
        dec_le(enc_le(x, n) + rest, n) == Some((x, n as int)),
    decreases n,
{
    if n > 0 {
        lemma_le_round_trip(x / 256, (n - 1) as nat, rest);
        let s = enc_le(x, n) + rest;
        assert(s.skip(1) =~= enc_le(x / 256, (n - 1) as nat) + rest);
        assert(s[0] == x % 256);
        assert(x % 256 + 256 * (x / 256) == x);
    }
}

/// Append `x`, `n` little-endian bytes, `n` at most 16.
pub fn encode_le(x: u128, n: usize, out: &mut Vec<u8>)
    requires
        n <= 16,
    ensures
        final(out)@ == old(out)@ + enc_le(x as nat, n as nat),
{
    let ghost out0 = out@;
    let ghost x0 = x as nat;
    let ghost total = enc_le(x0, n as nat);
    let mut x = x;
    let mut k: usize = 0;
    while k < n
        invariant
            k <= n,
            total == enc_le(x0, n as nat),
            out@ == out0 + total.take(k as int),
            total.skip(k as int) == enc_le(x as nat, (n - k) as nat),
        decreases n - k,
    {
        let ghost xk = x as nat;
        out.push((x % 256) as u8);
        x = x / 256;
        proof {
            assert(enc_le(xk, (n - k) as nat) == seq![(xk % 256) as u8] + enc_le(
                xk / 256,
                (n - k - 1) as nat,
            ));
            assert(total.skip(k as int)[0] == (xk % 256) as u8);
            assert(total.len() == n) by {
                lemma_enc_le_len(x0, n as nat);
            }
            assert(total.take(k + 1) =~= total.take(k as int).push((xk % 256) as u8));
            assert(total.skip(k + 1) =~= total.skip(k as int).skip(1));
            assert(total.skip(k as int).skip(1) =~= enc_le(xk / 256, (n - k - 1) as nat));
        }
        k = k + 1;
    }
    proof {
        lemma_enc_le_len(x0, n as nat);
        assert(out@ =~= out0 + total);
    }
}

pub proof fn lemma_enc_le_len(x: nat, n: nat)
    ensures
        enc_le(x, n).len() == n,
    decreases n,
{
    if n > 0 {
        lemma_enc_le_len(x / 256, (n - 1) as nat);
    }
}

/// Read `n` little-endian bytes, `n` at most 16, from `input` at `pos`.
pub fn decode_le(input: &Vec<u8>, pos: usize, n: usize) -> (r: Option<(u128, usize)>)
    requires
        pos <= input@.len(),
        n <= 16,
    ensures
        match dec_le(input@.skip(pos as int), n as nat) {
            Some((v, c)) => r == Some(((v as u128), (pos + c) as usize)),
            None => r is None,
        },
{
    if input.len() - pos < n {
        proof {
            lemma_dec_le_bounds(input@.skip(pos as int), n as nat);
        }
        return None;
    }
    let mut v: u128 = 0;
    let mut i: usize = n;
    while i > 0
        invariant
            pos + n <= input@.len(),
            input@.len() <= usize::MAX,
            n <= 16,
            i <= n,
            dec_le(input@.skip(pos + i), (n - i) as nat) == Some((v as nat, (n - i) as int)),
            (v as nat) < pow256((n - i) as nat),
        decreases i,
    {
        i = i - 1;
        let b = input[pos + i];
        proof {
            lemma_pow256_mono((n - i - 1) as nat, 15);
            assert(pow256(15) == 0x1000000000000000000000000000000) by {
                reveal_with_fuel(pow256, 16);
            }
            assert(input@.skip(pos + i).skip(1) =~= input@.skip(pos + i + 1));
            assert(input@.skip(pos + i)[0] == input@[pos + i]);
        }
        v = v * 256 + (b as u128);
    }
    proof {
        assert(dec_le(input@.skip(pos as int), n as nat) == Some((v as nat, n as int)));
    }
    Some((v, pos + n))
}

pub open spec fn enc_u64(x: u64) -> Seq<u8> {
    enc_le(x as nat, 8)
}

pub open spec fn dec_u64(s: Seq<u8>) -> Option<(u64, int)> {
    match dec_le(s, 8) {
        Some((v, c)) => Some(((v as u64), c)),
        None => None,
    }
}

pub open spec fn enc_u128(x: u128) -> Seq<u8> {
    enc_le(x as nat, 16)
}

pub open spec fn dec_u128(s: Seq<u8>) -> Option<(u128, int)> {
    match dec_le(s, 16) {
        Some((v, c)) => Some(((v as u128), c)),
        None => None,
    }
}

pub open spec fn enc_usize(x: usize) -> Seq<u8> {
    enc_le(x as nat, 8)
}

pub open spec fn dec_usize(s: Seq<u8>) -> Option<(usize, int)> {
    match dec_le(s, 8) {
        Some((v, c)) => if v <= usize::MAX {
            Some(((v as usize), c))
        } else {
            None
        },
        None => None,
    }
}

/// Append a 64-bit number.
pub fn encode_u64(x: u64, out: &mut Vec<u8>)
    ensures
        final(out)@ == old(out)@ + enc_u64(x),
{
    proof {
        lemma_pow256_mono(8, 16);
    }
    encode_le(x as u128, 8, out);
}

/// Read a 64-bit number.
pub fn decode_u64(input: &Vec<u8>, pos: usize) -> (r: Option<(u64, usize)>)
    requires
        pos <= input@.len(),
    ensures
        match dec_u64(input@.skip(pos as int)) {
            Some((v, c)) => 0 <= c && pos + c <= input@.len() && r == Some((v, (pos + c) as usize)),
            None => r is None,
        },
{
    proof {
        lemma_dec_le_bounds(input@.skip(pos as int), 8);
        assert(pow256(8) == 0x10000000000000000) by {
            reveal_with_fuel(pow256, 9);
        }
    }
    match decode_le(input, pos, 8) {
        Some((v, newpos)) => Some((v as u64, newpos)),
        None => None,
    }
}

/// Append a 128-bit number (the numeric form of the unique ids).
pub fn encode_u128(x: u128, out: &mut Vec<u8>)
    ensures
        final(out)@ == old(out)@ + enc_u128(x),
{
    encode_le(x, 16, out);
}

/// Read a 128-bit number.
pub fn decode_u128(input: &Vec<u8>, pos: usize) -> (r: Option<(u128, usize)>)
    requires
        pos <= input@.len(),
    ensures
        match dec_u128(input@.skip(pos as int)) {
            Some((v, c)) => 0 <= c && pos + c <= input@.len() && r == Some((v, (pos + c) as usize)),
            None => r is None,
        },
{
    proof {
        lemma_dec_le_bounds(input@.skip(pos as int), 16);
        assert(pow256(16) > u128::MAX) by {
            reveal_with_fuel(pow256, 17);
        }
    }
    match decode_le(input, pos, 16) {
        Some((v, newpos)) => Some((v, newpos)),
        None => None,
    }
}

/// Append an index-sized number.
pub fn encode_usize(x: usize, out: &mut Vec<u8>)
    ensures
        final(out)@ == old(out)@ + enc_usize(x),
{
    proof {
        lemma_pow256_mono(8, 16);
    }
    encode_le(x as u128, 8, out);
}

/// Read an index-sized number.
pub fn decode_usize(input: &Vec<u8>, pos: usize) -> (r: Option<(usize, usize)>)
    requires
        pos <= input@.len(),
    ensures
        match dec_usize(input@.skip(pos as int)) {
            Some((v, c)) => 0 <= c && pos + c <= input@.len() && r == Some((v, (pos + c) as usize)),
            None => r is None,
        },
{
    proof {
        lemma_dec_le_bounds(input@.skip(pos as int), 8);
        assert(pow256(8) == 0x10000000000000000) by {
            reveal_with_fuel(pow256, 9);
        }
    }
    match decode_le(input, pos, 8) {
        Some((v, newpos)) => {
            if v <= usize::MAX as u128 {
                Some((v as usize, newpos))
            } else {
                None
            }
        },
        None => None,
    }
}

pub open spec fn enc_u8(x: u8) -> Seq<u8> {
    seq![x]
}

pub open spec fn dec_u8(s: Seq<u8>) -> Option<(u8, int)> {
    if s.len() < 1 {
        None
    } else {
        Some((s[0], 1))
    }
}

/// Append one byte.
pub fn encode_u8(x: u8, out: &mut Vec<u8>)
    ensures
        final(out)@ == old(out)@ + enc_u8(x),
{
    out.push(x);
    proof {
        assert(final(out)@ =~= old(out)@ + enc_u8(x));
    }
}

/// Read one byte.
pub fn decode_u8(input: &Vec<u8>, pos: usize) -> (r: Option<(u8, usize)>)
    requires
        pos <= input@.len(),
    ensures
        match dec_u8(input@.skip(pos as int)) {
            Some((v, c)) => 0 <= c && pos + c <= input@.len() && r == Some((v, (pos + c) as usize)),
            None => r is None,
        },
{
    if pos < input.len() {
        Some((input[pos], pos + 1))
    } else {
        None
    }
}

pub open spec fn enc_bool(b: bool) -> Seq<u8> {
    seq![if b { 1u8 } else { 0u8 }]
}

pub open spec fn dec_bool(s: Seq<u8>) -> Option<(bool, int)> {
    if s.len() < 1 {
        None
    } else if s[0] == 0 {
        Some((false, 1))
    } else if s[0] == 1 {
        Some((true, 1))
    } else {
        None
    }
}

/// Append a boolean.
pub fn encode_bool(b: bool, out: &mut Vec<u8>)
    ensures
        final(out)@ == old(out)@ + enc_bool(b),
{
    out.push(if b { 1 } else { 0 });
    proof {
        assert(final(out)@ =~= old(out)@ + enc_bool(b));
    }
}

/// Read a boolean.
pub fn decode_bool(input: &Vec<u8>, pos: usize) -> (r: Option<(bool, usize)>)
    requires
        pos <= input@.len(),
    ensures
        match dec_bool(input@.skip(pos as int)) {
            Some((v, c)) => 0 <= c && pos + c <= input@.len() && r == Some((v, (pos + c) as usize)),
            None => r is None,
        },
{
    if pos < input.len() {
        let b = input[pos];
        if b == 0 {
            Some((false, pos + 1))
        } else if b == 1 {
            Some((true, pos + 1))
        } else {
            None
        }
    } else {
        None
    }
}

pub open spec fn enc_i8(x: i8) -> Seq<u8> {
    seq![x as u8]
}

pub open spec fn dec_i8(s: Seq<u8>) -> Option<(i8, int)> {
    if s.len() < 1 {
        None
    } else {
        Some(((s[0] as i8), 1))
    }
}

/// Append a small signed number (a board coordinate).
pub fn encode_i8(x: i8, out: &mut Vec<u8>)
    ensures
        final(out)@ == old(out)@ + enc_i8(x),
{
    #[verifier::truncate]
    let b = x as u8;
    out.push(b);
    proof {
        assert(final(out)@ =~= old(out)@ + enc_i8(x));
    }
}

/// Read a small signed number.
pub fn decode_i8(input: &Vec<u8>, pos: usize) -> (r: Option<(i8, usize)>)
    requires
        pos <= input@.len(),
    ensures
        match dec_i8(input@.skip(pos as int)) {
            Some((v, c)) => 0 <= c && pos + c <= input@.len() && r == Some((v, (pos + c) as usize)),
            None => r is None,
        },
{
    if pos < input.len() {
        #[verifier::truncate]
        let v = input[pos] as i8;
        Some((v, pos + 1))
    } else {
        None
    }
}

pub proof fn lemma_i8_round_trip(x: i8)
    ensures
        (x as u8) as i8 == x,
{
    assert((x as u8) as i8 == x) by (bit_vector);
}

pub open spec fn enc_i64(x: i64) -> Seq<u8> {
    enc_le((x as u64) as nat, 8)
}

pub open spec fn dec_i64(s: Seq<u8>) -> Option<(i64, int)> {
    match dec_le(s, 8) {
        Some((v, c)) => Some((((v as u64) as i64), c)),
        None => None,
    }
}

/// Append a signed 64-bit number (a rating or range).
pub fn encode_i64(x: i64, out: &mut Vec<u8>)
    ensures
        final(out)@ == old(out)@ + enc_i64(x),
{
    proof {
        lemma_pow256_mono(8, 16);
    }
    #[verifier::truncate]
    let u = x as u64;
    encode_le(u as u128, 8, out);
}

/// Read a signed 64-bit number.
pub fn decode_i64(input: &Vec<u8>, pos: usize) -> (r: Option<(i64, usize)>)
    requires
        pos <= input@.len(),
    ensures
        match dec_i64(input@.skip(pos as int)) {
            Some((v, c)) => 0 <= c && pos + c <= input@.len() && r == Some((v, (pos + c) as usize)),
            None => r is None,
        },
{
    match decode_u64(input, pos) {
        Some((v, newpos)) => {
            #[verifier::truncate]
            let x = v as i64;
            Some((x, newpos))
        },
        None => None,
    }
}

pub proof fn lemma_i64_round_trip(x: i64)
    ensures
        (x as u64) as i64 == x,
{
    assert((x as u64) as i64 == x) by (bit_vector);
}

pub open spec fn enc_i32(x: i32) -> Seq<u8> {
    enc_le((x as u32) as nat, 4)
}

pub open spec fn dec_i32(s: Seq<u8>) -> Option<(i32, int)> {
    match dec_le(s, 4) {
        Some((v, c)) => Some((((v as u32) as i32), c)),
        None => None,
    }
}

/// Append a signed 32-bit number (a pawn's double-advance counter).
pub fn encode_i32(x: i32, out: &mut Vec<u8>)
    ensures
        final(out)@ == old(out)@ + enc_i32(x),
{
    proof {
        lemma_pow256_mono(4, 16);
    }
    #[verifier::truncate]
    let u = x as u32;
    encode_le(u as u128, 4, out);
}

/// Read a signed 32-bit number.
pub fn decode_i32(input: &Vec<u8>, pos: usize) -> (r: Option<(i32, usize)>)
    requires
        pos <= input@.len(),
    ensures
        match dec_i32(input@.skip(pos as int)) {
            Some((v, c)) => 0 <= c && pos + c <= input@.len() && r == Some((v, (pos + c) as usize)),
            None => r is None,
        },
{
    proof {
        lemma_dec_le_bounds(input@.skip(pos as int), 4);
        assert(pow256(4) == 0x100000000) by {
            reveal_with_fuel(pow256, 5);
        }
    }
    match decode_le(input, pos, 4) {
        Some((v, newpos)) => {
            #[verifier::truncate]
            let x = (v as u32) as i32;
            Some((x, newpos))
        },
        None => None,
    }
}

pub proof fn lemma_i32_round_trip(x: i32)
    ensures
        (x as u32) as i32 == x,
{
    assert((x as u32) as i32 == x) by (bit_vector);
}

pub open spec fn enc_vec2(v: Vec2) -> Seq<u8> {
    enc_i8(v.0) + enc_i8(v.1)
}

pub open spec fn dec_vec2(s: Seq<u8>) -> Option<(Vec2, int)> {
    if s.len() < 2 {
        None
    } else {
        Some((Vec2(s[0] as i8, s[1] as i8), 2))
    }
}

/// Append a coordinate pair.
pub fn encode_vec2(v: Vec2, out: &mut Vec<u8>)
    ensures
        final(out)@ == old(out)@ + enc_vec2(v),
{
    encode_i8(v.0, out);
    encode_i8(v.1, out);
    proof {
        assert(final(out)@ =~= old(out)@ + enc_vec2(v));
    }
}

/// Read a coordinate pair.
pub fn decode_vec2(input: &Vec<u8>, pos: usize) -> (r: Option<(Vec2, usize)>)
    requires
        pos <= input@.len(),
    ensures
        match dec_vec2(input@.skip(pos as int)) {
            Some((v, c)) => 0 <= c && pos + c <= input@.len() && r == Some((v, (pos + c) as usize)),
            None => r is None,
        },
{
    if input.len() - pos < 2 {
        return None;
    }
    #[verifier::truncate]
    let a = input[pos] as i8;
    #[verifier::truncate]
    let b = input[pos + 1] as i8;
    Some((Vec2(a, b), pos + 2))
}

pub proof fn lemma_vec2_round_trip(v: Vec2, rest: Seq<u8>)
    ensures
        dec_vec2(enc_vec2(v) + rest) == Some((v, 2int)),
{
    lemma_i8_round_trip(v.0);
    lemma_i8_round_trip(v.1);
    assert((enc_vec2(v) + rest)[0] == v.0 as u8);
    assert((enc_vec2(v) + rest)[1] == v.1 as u8);
}

pub open spec fn enc_player(p: Player) -> Seq<u8> {
    match p {
        Player::White => seq![0u8],
        Player::Black => seq![1u8],
    }
}

pub open spec fn dec_player(s: Seq<u8>) -> Option<(Player, int)> {
    if s.len() < 1 {
        None
    } else if s[0] == 0 {
        Some((Player::White, 1))
    } else if s[0] == 1 {
        Some((Player::Black, 1))
    } else {
        None
    }
}

/// Append a side.
pub fn encode_player(p: Player, out: &mut Vec<u8>)
    ensures
        final(out)@ == old(out)@ + enc_player(p),
{
    out.push(
        match p {
            Player::White => 0,
            Player::Black => 1,
        },
    );
    proof {
        assert(final(out)@ =~= old(out)@ + enc_player(p));
    }
}

/// Read a side.
pub fn decode_player(input: &Vec<u8>, pos: usize) -> (r: Option<(Player, usize)>)
    requires
        pos <= input@.len(),
    ensures
        match dec_player(input@.skip(pos as int)) {
            Some((v, c)) => 0 <= c && pos + c <= input@.len() && r == Some((v, (pos + c) as usize)),
            None => r is None,
        },
{
    if pos < input.len() {
        let b = input[pos];
        if b == 0 {
            Some((Player::White, pos + 1))
        } else if b == 1 {
            Some((Player::Black, pos + 1))
        } else {
            None
        }
    } else {
        None
    }
}

pub proof fn lemma_player_round_trip(p: Player, rest: Seq<u8>)
    ensures
        dec_player(enc_player(p) + rest) == Some((p, 1int)),
{
    assert((enc_player(p) + rest)[0] == enc_player(p)[0]);
}

pub open spec fn enc_floor(f: Floor) -> Seq<u8> {
    match f {
        Floor::Light => seq![0u8],
        Floor::Dark => seq![1u8],
    }
}

pub open spec fn dec_floor(s: Seq<u8>) -> Option<(Floor, int)> {
    if s.len() < 1 {
        None
    } else if s[0] == 0 {
        Some((Floor::Light, 1))
    } else if s[0] == 1 {
        Some((Floor::Dark, 1))
    } else {
        None
    }
}

/// Append a floor colour.
pub fn encode_floor(f: Floor, out: &mut Vec<u8>)
    ensures
        final(out)@ == old(out)@ + enc_floor(f),
{
    out.push(
        match f {
            Floor::Light => 0,
            Floor::Dark => 1,
        },
    );
    proof {
        assert(final(out)@ =~= old(out)@ + enc_floor(f));
    }
}

/// Read a floor colour.
pub fn decode_floor(input: &Vec<u8>, pos: usize) -> (r: Option<(Floor, usize)>)
    requires
        pos <= input@.len(),
    ensures
        match dec_floor(input@.skip(pos as int)) {
            Some((v, c)) => 0 <= c && pos + c <= input@.len() && r == Some((v, (pos + c) as usize)),
            None => r is None,
        },
{
    if pos < input.len() {
        let b = input[pos];
        if b == 0 {
            Some((Floor::Light, pos + 1))
        } else if b == 1 {
            Some((Floor::Dark, pos + 1))
        } else {
            None
        }
    } else {
        None
    }
}

pub proof fn lemma_floor_round_trip(f: Floor, rest: Seq<u8>)
    ensures
        dec_floor(enc_floor(f) + rest) == Some((f, 1int)),
{
    assert((enc_floor(f) + rest)[0] == enc_floor(f)[0]);
}

pub open spec fn enc_opt_i32(o: Option<i32>) -> Seq<u8> {
    match o {
        None => seq![0u8],
        Some(x) => seq![1u8] + enc_i32(x),
    }
}

pub open spec fn dec_opt_i32(s: Seq<u8>) -> Option<(Option<i32>, int)> {
    if s.len() < 1 {
        None
    } else if s[0] == 0 {
        Some((None, 1))
    } else if s[0] == 1 {
        match dec_i32(s.skip(1)) {
            Some((x, c)) => Some((Some(x), 1 + c)),
            None => None,
        }
    } else {
        None
    }
}

/// Append an optional counter.
pub fn encode_opt_i32(o: Option<i32>, out: &mut Vec<u8>)
    ensures
        final(out)@ == old(out)@ + enc_opt_i32(o),
{
    match o {
        None => {
            out.push(0);
        },
        Some(x) => {
            out.push(1);
            encode_i32(x, out);
        },
    }
    proof {
        assert(final(out)@ =~= old(out)@ + enc_opt_i32(o));
    }
}

/// Read an optional counter.
pub fn decode_opt_i32(input: &Vec<u8>, pos: usize) -> (r: Option<(Option<i32>, usize)>)
    requires
        pos <= input@.len(),
    ensures
        match dec_opt_i32(input@.skip(pos as int)) {
            Some((v, c)) => 0 <= c && pos + c <= input@.len() && r == Some((v, (pos + c) as usize)),
            None => r is None,
        },
{
    if pos >= input.len() {
        return None;
    }
    let b = input[pos];
    if b == 0 {
        Some((None, pos + 1))
    } else if b == 1 {
        proof {
            assert(input@.skip(pos as int).skip(1) =~= input@.skip(pos + 1));
        }
        match decode_i32(input, pos + 1) {
            Some((x, newpos)) => Some((Some(x), newpos)),
            None => None,
        }
    } else {
        None
    }
}

pub proof fn lemma_opt_i32_round_trip(o: Option<i32>, rest: Seq<u8>)
    ensures
        dec_opt_i32(enc_opt_i32(o) + rest) == Some((o, enc_opt_i32(o).len() as int)),
{
    match o {
        None => {
            assert((enc_opt_i32(o) + rest)[0] == 0);
        },
        Some(x) => {
            let s = enc_opt_i32(o) + rest;
            assert(s[0] == 1);
            assert(s.skip(1) =~= enc_i32(x) + rest);
            assert(pow256(4) == 0x100000000) by {
                reveal_with_fuel(pow256, 5);
            }
            lemma_enc_le_len((x as u32) as nat, 4);
            lemma_le_round_trip((x as u32) as nat, 4, rest);
            lemma_i32_round_trip(x);
        },
    }
}

pub open spec fn enc_piece_type(t: PieceType) -> Seq<u8> {
    match t {
        PieceType::King => seq![0u8],
        PieceType::Queen => seq![1u8],
        PieceType::Castle => seq![2u8],
        PieceType::Bishop => seq![3u8],
        PieceType::Knight => seq![4u8],
        PieceType::Pawn { turns_since_double_advance } => seq![5u8] + enc_opt_i32(
            turns_since_double_advance,
        ),
    }
}

pub open spec fn dec_piece_type(s: Seq<u8>) -> Option<(PieceType, int)> {
    if s.len() < 1 {
        None
    } else if s[0] == 0 {
        Some((PieceType::King, 1))
    } else if s[0] == 1 {
        Some((PieceType::Queen, 1))
    } else if s[0] == 2 {
        Some((PieceType::Castle, 1))
    } else if s[0] == 3 {
        Some((PieceType::Bishop, 1))
    } else if s[0] == 4 {
        Some((PieceType::Knight, 1))
    } else if s[0] == 5 {
        match dec_opt_i32(s.skip(1)) {
            Some((o, c)) => Some((PieceType::Pawn { turns_since_double_advance: o }, 1 + c)),
            None => None,
        }
    } else {
        None
    }
}

/// Append a piece kind.
pub fn encode_piece_type(t: PieceType, out: &mut Vec<u8>)
    ensures
        final(out)@ == old(out)@ + enc_piece_type(t),
{
    match t {
        PieceType::King => {
            out.push(0);
        },
        PieceType::Queen => {
            out.push(1);
        },
        PieceType::Castle => {
            out.push(2);
        },
        PieceType::Bishop => {
            out.push(3);
        },
        PieceType::Knight => {
            out.push(4);
        },
        PieceType::Pawn { turns_since_double_advance } => {
            out.push(5);
            encode_opt_i32(turns_since_double_advance, out);
        },
    }
    proof {
        assert(final(out)@ =~= old(out)@ + enc_piece_type(t));
    }
}

/// Read a piece kind.
pub fn decode_piece_type(input: &Vec<u8>, pos: usize) -> (r: Option<(PieceType, usize)>)
    requires
        pos <= input@.len(),
    ensures
        match dec_piece_type(input@.skip(pos as int)) {
            Some((v, c)) => 0 <= c && pos + c <= input@.len() && r == Some((v, (pos + c) as usize)),
            None => r is None,
        },
{
    if pos >= input.len() {
        return None;
    }
    let b = input[pos];
    if b == 0 {
        Some((PieceType::King, pos + 1))
    } else if b == 1 {
        Some((PieceType::Queen, pos + 1))
    } else if b == 2 {
        Some((PieceType::Castle, pos + 1))
    } else if b == 3 {
        Some((PieceType::Bishop, pos + 1))
    } else if b == 4 {
        Some((PieceType::Knight, pos + 1))
    } else if b == 5 {
        proof {
            assert(input@.skip(pos as int).skip(1) =~= input@.skip(pos + 1));
        }
        match decode_opt_i32(input, pos + 1) {
            Some((o, newpos)) => Some(
                (PieceType::Pawn { turns_since_double_advance: o }, newpos),
            ),
            None => None,
        }
    } else {
        None
    }
}

pub proof fn lemma_piece_type_round_trip(t: PieceType, rest: Seq<u8>)
    ensures
        dec_piece_type(enc_piece_type(t) + rest) == Some((t, enc_piece_type(t).len() as int)),
{
    let s = enc_piece_type(t) + rest;
    assert(s[0] == enc_piece_type(t)[0]);
    match t {
        PieceType::Pawn { turns_since_double_advance } => {
            assert(s.skip(1) =~= enc_opt_i32(turns_since_double_advance) + rest);
            lemma_opt_i32_round_trip(turns_since_double_advance, rest);
        },
        _ => {},
    }
}

pub open spec fn enc_piece(p: Piece) -> Seq<u8> {
    enc_piece_type(p.piece_type) + enc_player(p.owner) + enc_bool(p.has_moved)
}

pub open spec fn dec_piece(s: Seq<u8>) -> Option<(Piece, int)> {
    match dec_piece_type(s) {
        Some((t, c1)) => match dec_player(s.skip(c1)) {
            Some((o, c2)) => match dec_bool(s.skip(c1 + c2)) {
                Some((m, c3)) => Some(
                    (Piece { piece_type: t, owner: o, has_moved: m }, c1 + c2 + c3),
                ),
                None => None,
            },
            None => None,
        },
        None => None,
    }
}

/// Append a piece.
pub fn encode_piece(p: Piece, out: &mut Vec<u8>)
    ensures
        final(out)@ == old(out)@ + enc_piece(p),
{
    encode_piece_type(p.piece_type, out);
    encode_player(p.owner, out);
    encode_bool(p.has_moved, out);
    proof {
        assert(final(out)@ =~= old(out)@ + enc_piece(p));
    }
}

/// Read a piece.
pub fn decode_piece(input: &Vec<u8>, pos: usize) -> (r: Option<(Piece, usize)>)
    requires
        pos <= input@.len(),
    ensures
        match dec_piece(input@.skip(pos as int)) {
            Some((v, c)) => 0 <= c && pos + c <= input@.len() && r == Some((v, (pos + c) as usize)),
            None => r is None,
        },
{
    let ghost s = input@.skip(pos as int);
    proof {
        assert(vstd::std_specs::vec::spec_vec_len(input) == input@.len());
    }
    match decode_piece_type(input, pos) {
        None => None,
        Some((t, p1)) => {
            proof {
                assert(input@.skip(p1 as int) =~= s.skip(p1 - pos));
            }
            match decode_player(input, p1) {
                None => None,
                Some((o, p2)) => {
                    proof {
                        assert(input@.skip(p2 as int) =~= s.skip(p2 - pos));
                    }
                    match decode_bool(input, p2) {
                        None => None,
                        Some((m, p3)) => Some(
                            (Piece { piece_type: t, owner: o, has_moved: m }, p3),
                        ),
                    }
                },
            }
        },
    }
}

pub proof fn lemma_piece_round_trip(p: Piece, rest: Seq<u8>)
    ensures
        dec_piece(enc_piece(p) + rest) == Some((p, enc_piece(p).len() as int)),
{
    let s = enc_piece(p) + rest;
    assert(s =~= enc_piece_type(p.piece_type) + (enc_player(p.owner) + (enc_bool(p.has_moved)
        + rest)));
    lemma_piece_type_round_trip(p.piece_type, enc_player(p.owner) + (enc_bool(p.has_moved) + rest));
    let c1 = enc_piece_type(p.piece_type).len() as int;
    assert(s.skip(c1) =~= enc_player(p.owner) + (enc_bool(p.has_moved) + rest));
    lemma_player_round_trip(p.owner, enc_bool(p.has_moved) + rest);
    assert(s.skip(c1 + 1) =~= enc_bool(p.has_moved) + rest);
    assert((enc_bool(p.has_moved) + rest)[0] == enc_bool(p.has_moved)[0]);
}

pub open spec fn enc_opt_piece(o: Option<Piece>) -> Seq<u8> {
    match o {
        None => seq![0u8],
        Some(p) => seq![1u8] + enc_piece(p),
    }
}

pub open spec fn dec_opt_piece(s: Seq<u8>) -> Option<(Option<Piece>, int)> {
    if s.len() < 1 {
        None
    } else if s[0] == 0 {
        Some((None, 1))
    } else if s[0] == 1 {
        match dec_piece(s.skip(1)) {
            Some((p, c)) => Some((Some(p), 1 + c)),
            None => None,
        }
    } else {
        None
    }
}

/// Append an optional piece.
pub fn encode_opt_piece(o: Option<Piece>, out: &mut Vec<u8>)
    ensures
        final(out)@ == old(out)@ + enc_opt_piece(o),
{
    match o {
        None => {
            out.push(0);
        },
        Some(p) => {
            out.push(1);
            encode_piece(p, out);
        },
    }
    proof {
        assert(final(out)@ =~= old(out)@ + enc_opt_piece(o));
    }
}

/// Read an optional piece.
pub fn decode_opt_piece(input: &Vec<u8>, pos: usize) -> (r: Option<(Option<Piece>, usize)>)
    requires
        pos <= input@.len(),
    ensures
        match dec_opt_piece(input@.skip(pos as int)) {
            Some((v, c)) => 0 <= c && pos + c <= input@.len() && r == Some((v, (pos + c) as usize)),
            None => r is None,
        },
{
    if pos >= input.len() {
        return None;
    }
    let b = input[pos];
    if b == 0 {
        Some((None, pos + 1))
    } else if b == 1 {
        proof {
            assert(input@.skip(pos as int).skip(1) =~= input@.skip(pos + 1));
        }
        match decode_piece(input, pos + 1) {
            Some((p, newpos)) => Some((Some(p), newpos)),
            None => None,
        }
    } else {
        None
    }
}

pub proof fn lemma_opt_piece_round_trip(o: Option<Piece>, rest: Seq<u8>)
    ensures
        dec_opt_piece(enc_opt_piece(o) + rest) == Some((o, enc_opt_piece(o).len() as int)),
{
    match o {
        None => {
            assert((enc_opt_piece(o) + rest)[0] == 0);
        },
        Some(p) => {
            let s = enc_opt_piece(o) + rest;
            assert(s[0] == 1);
            assert(s.skip(1) =~= enc_piece(p) + rest);
            lemma_piece_round_trip(p, rest);
        },
    }
}

pub open spec fn enc_tile(t: Tile) -> Seq<u8> {
    enc_floor(t.floor) + enc_opt_piece(t.piece)
}

pub open spec fn dec_tile(s: Seq<u8>) -> Option<(Tile, int)> {
    match dec_floor(s) {
        Some((f, c1)) => match dec_opt_piece(s.skip(c1)) {
            Some((p, c2)) => Some((Tile { floor: f, piece: p }, c1 + c2)),
            None => None,
        },
        None => None,
    }
}

/// Append a tile.
pub fn encode_tile(t: Tile, out: &mut Vec<u8>)
    ensures
        final(out)@ == old(out)@ + enc_tile(t),
{
    encode_floor(t.floor, out);
    encode_opt_piece(t.piece, out);
    proof {
        assert(final(out)@ =~= old(out)@ + enc_tile(t));
    }
}

/// Read a tile.
pub fn decode_tile(input: &Vec<u8>, pos: usize) -> (r: Option<(Tile, usize)>)
    requires
        pos <= input@.len(),
    ensures
        match dec_tile(input@.skip(pos as int)) {
            Some((v, c)) => 0 <= c && pos + c <= input@.len() && r == Some((v, (pos + c) as usize)),
            None => r is None,
        },
{
    let ghost s = input@.skip(pos as int);
    proof {
        assert(vstd::std_specs::vec::spec_vec_len(input) == input@.len());
    }
    match decode_floor(input, pos) {
        None => None,
        Some((f, p1)) => {
            proof {
                assert(input@.skip(p1 as int) =~= s.skip(p1 - pos));
            }
            match decode_opt_piece(input, p1) {
                None => None,
                Some((p, p2)) => Some((Tile { floor: f, piece: p }, p2)),
            }
        },
    }
}

pub proof fn lemma_tile_round_trip(t: Tile, rest: Seq<u8>)
    ensures
        dec_tile(enc_tile(t) + rest) == Some((t, enc_tile(t).len() as int)),
{
    let s = enc_tile(t) + rest;
    assert(s =~= enc_floor(t.floor) + (enc_opt_piece(t.piece) + rest));
    lemma_floor_round_trip(t.floor, enc_opt_piece(t.piece) + rest);
    assert(s.skip(1) =~= enc_opt_piece(t.piece) + rest);
    lemma_opt_piece_round_trip(t.piece, rest);
}

pub open spec fn enc_move_type(t: MoveType) -> Seq<u8> {
    match t {
        MoveType::JumpingMove => seq![0u8],
        MoveType::SlidingMove => seq![1u8],
        MoveType::EnPassant => seq![2u8],
        MoveType::Promotion { into } => seq![3u8] + enc_piece_type(into),
        MoveType::Castle { from, to } => seq![4u8] + enc_vec2(from) + enc_vec2(to),
        MoveType::TurnEnd => seq![5u8],
    }
}

pub open spec fn dec_move_type(s: Seq<u8>) -> Option<(MoveType, int)> {
    if s.len() < 1 {
        None
    } else if s[0] == 0 {
        Some((MoveType::JumpingMove, 1))
    } else if s[0] == 1 {
        Some((MoveType::SlidingMove, 1))
    } else if s[0] == 2 {
        Some((MoveType::EnPassant, 1))
    } else if s[0] == 3 {
        match dec_piece_type(s.skip(1)) {
            Some((t, c)) => Some((MoveType::Promotion { into: t }, 1 + c)),
            None => None,
        }
    } else if s[0] == 4 {
        match dec_vec2(s.skip(1)) {
            Some((f, c1)) => match dec_vec2(s.skip(1 + c1)) {
                Some((t, c2)) => Some((MoveType::Castle { from: f, to: t }, 1 + c1 + c2)),
                None => None,
            },
            None => None,
        }
    } else if s[0] == 5 {
        Some((MoveType::TurnEnd, 1))
    } else {
        None
    }
}

/// Append a move kind.
pub fn encode_move_type(t: MoveType, out: &mut Vec<u8>)
    ensures
        final(out)@ == old(out)@ + enc_move_type(t),
{
    match t {
        MoveType::JumpingMove => {
            out.push(0);
        },
        MoveType::SlidingMove => {
            out.push(1);
        },
        MoveType::EnPassant => {
            out.push(2);
        },
        MoveType::Promotion { into } => {
            out.push(3);
            encode_piece_type(into, out);
        },
        MoveType::Castle { from, to } => {
            out.push(4);
            encode_vec2(from, out);
            encode_vec2(to, out);
        },
        MoveType::TurnEnd => {
            out.push(5);
        },
    }
    proof {
        assert(final(out)@ =~= old(out)@ + enc_move_type(t));
    }
}

/// Read a move kind.
pub fn decode_move_type(input: &Vec<u8>, pos: usize) -> (r: Option<(MoveType, usize)>)
    requires
        pos <= input@.len(),
    ensures
        match dec_move_type(input@.skip(pos as int)) {
            Some((v, c)) => 0 <= c && pos + c <= input@.len() && r == Some((v, (pos + c) as usize)),
            None => r is None,
        },
{
    if pos >= input.len() {
        return None;
    }
    let ghost s = input@.skip(pos as int);
    proof {
        assert(vstd::std_specs::vec::spec_vec_len(input) == input@.len());
    }
    let b = input[pos];
    if b == 0 {
        Some((MoveType::JumpingMove, pos + 1))
    } else if b == 1 {
        Some((MoveType::SlidingMove, pos + 1))
    } else if b == 2 {
        Some((MoveType::EnPassant, pos + 1))
    } else if b == 3 {
        proof {
            assert(input@.skip(pos + 1) =~= s.skip(1));
        }
        match decode_piece_type(input, pos + 1) {
            Some((t, newpos)) => Some((MoveType::Promotion { into: t }, newpos)),
            None => None,
        }
    } else if b == 4 {
        proof {
            assert(input@.skip(pos + 1) =~= s.skip(1));
        }
        match decode_vec2(input, pos + 1) {
            Some((f, p1)) => {
                proof {
                    assert(input@.skip(p1 as int) =~= s.skip(p1 - pos));
                }
                match decode_vec2(input, p1) {
                    Some((t, p2)) => Some((MoveType::Castle { from: f, to: t }, p2)),
                    None => None,
                }
            },
            None => None,
        }
    } else if b == 5 {
        Some((MoveType::TurnEnd, pos + 1))
    } else {
        None
    }
}

pub proof fn lemma_move_type_round_trip(t: MoveType, rest: Seq<u8>)
    ensures
        dec_move_type(enc_move_type(t) + rest) == Some((t, enc_move_type(t).len() as int)),
{
    let s = enc_move_type(t) + rest;
    assert(s[0] == enc_move_type(t)[0]);
    match t {
        MoveType::Promotion { into } => {
            assert(s.skip(1) =~= enc_piece_type(into) + rest);
            lemma_piece_type_round_trip(into, rest);
        },
        MoveType::Castle { from, to } => {
            assert(s.skip(1) =~= enc_vec2(from) + (enc_vec2(to) + rest));
            lemma_vec2_round_trip(from, enc_vec2(to) + rest);
            assert(s.skip(3) =~= enc_vec2(to) + rest);
            lemma_vec2_round_trip(to, rest);
        },
        _ => {},
    }
}

pub open spec fn enc_move(m: Move) -> Seq<u8> {
    enc_move_type(m.move_type) + enc_vec2(m.from) + enc_vec2(m.to)
}

pub open spec fn dec_move(s: Seq<u8>) -> Option<(Move, int)> {
    match dec_move_type(s) {
        Some((t, c1)) => match dec_vec2(s.skip(c1)) {
            Some((f, c2)) => match dec_vec2(s.skip(c1 + c2)) {
                Some((to, c3)) => Some((Move { move_type: t, from: f, to }, c1 + c2 + c3)),
                None => None,
            },
            None => None,
        },
        None => None,
    }
}

/// Append a move.
pub fn encode_move(m: Move, out: &mut Vec<u8>)
    ensures
        final(out)@ == old(out)@ + enc_move(m),
{
    encode_move_type(m.move_type, out);
    encode_vec2(m.from, out);
    encode_vec2(m.to, out);
    proof {
        assert(final(out)@ =~= old(out)@ + enc_move(m));
    }
}

/// Read a move.
pub fn decode_move(input: &Vec<u8>, pos: usize) -> (r: Option<(Move, usize)>)
    requires
        pos <= input@.len(),
    ensures
        match dec_move(input@.skip(pos as int)) {
            Some((v, c)) => 0 <= c && pos + c <= input@.len() && r == Some((v, (pos + c) as usize)),
            None => r is None,
        },
{
    let ghost s = input@.skip(pos as int);
    proof {
        assert(vstd::std_specs::vec::spec_vec_len(input) == input@.len());
    }
    match decode_move_type(input, pos) {
        None => None,
        Some((t, p1)) => {
            proof {
                assert(input@.skip(p1 as int) =~= s.skip(p1 - pos));
            }
            match decode_vec2(input, p1) {
                None => None,
                Some((f, p2)) => {
                    proof {
                        assert(input@.skip(p2 as int) =~= s.skip(p2 - pos));
                    }
                    match decode_vec2(input, p2) {
                        None => None,
                        Some((to, p3)) => Some((Move { move_type: t, from: f, to }, p3)),
                    }
                },
            }
        },
    }
}

/// Serialization round trip for a move: decoding an encoded move, whatever
/// follows it, returns the move itself.
pub proof fn lemma_move_round_trip(m: Move, rest: Seq<u8>)
    ensures
        dec_move(enc_move(m) + rest) == Some((m, enc_move(m).len() as int)),
{
    let s = enc_move(m) + rest;
    assert(s =~= enc_move_type(m.move_type) + (enc_vec2(m.from) + (enc_vec2(m.to) + rest)));
    lemma_move_type_round_trip(m.move_type, enc_vec2(m.from) + (enc_vec2(m.to) + rest));
    let c1 = enc_move_type(m.move_type).len() as int;
    assert(s.skip(c1) =~= enc_vec2(m.from) + (enc_vec2(m.to) + rest));
    lemma_vec2_round_trip(m.from, enc_vec2(m.to) + rest);
    assert(s.skip(c1 + 2) =~= enc_vec2(m.to) + rest);
    lemma_vec2_round_trip(m.to, rest);
}

/// The encodings of `s[i..]`, one after another.
pub open spec fn enc_items<T>(f: spec_fn(T) -> Seq<u8>, s: Seq<T>, i: int) -> Seq<u8>
    decreases s.len() - i,
{
    if i < 0 || i >= s.len() {
        Seq::empty()
    } else {
        f(s[i]) + enc_items(f, s, i + 1)
    }
}

/// A length-prefixed list.
pub open spec fn enc_list<T>(f: spec_fn(T) -> Seq<u8>, s: Seq<T>) -> Seq<u8> {
    enc_le(s.len(), 8) + enc_items(f, s, 0)
}

/// `n` values read one after another.
pub open spec fn dec_items<T>(
    g: spec_fn(Seq<u8>) -> Option<(T, int)>,
    s: Seq<u8>,
    n: nat,
) -> Option<(Seq<T>, int)>
    decreases n,
{
    if n == 0 {
        Some((Seq::empty(), 0))
    } else {
        match g(s) {
            Some((v, c)) => match dec_items(g, s.skip(c), (n - 1) as nat) {
                Some((vs, c2)) => Some((seq![v] + vs, c + c2)),
                None => None,
            },
            None => None,
        }
    }
}

/// A length-prefixed list read back.
pub open spec fn dec_list<T>(g: spec_fn(Seq<u8>) -> Option<(T, int)>, s: Seq<u8>) -> Option<
    (Seq<T>, int),
> {
    match dec_usize(s) {
        Some((n, c1)) => match dec_items(g, s.skip(c1), n as nat) {
            Some((vs, c2)) => Some((vs, c1 + c2)),
            None => None,
        },
        None => None,
    }
}

/// Elementwise round trips give a round trip for the concatenation.
pub proof fn lemma_items_round_trip<T>(
    f: spec_fn(T) -> Seq<u8>,
    g: spec_fn(Seq<u8>) -> Option<(T, int)>,
    s: Seq<T>,
    i: int,
    rest: Seq<u8>,
)
    requires
        0 <= i <= s.len(),
        forall|j: int, r2: Seq<u8>|
            0 <= j < s.len() ==> #[trigger] g(f(s[j]) + r2) == Some((s[j], f(s[j]).len() as int)),
    ensures
        dec_items(g, enc_items(f, s, i) + rest, (s.len() - i) as nat) == Some(
            (s.skip(i), enc_items(f, s, i).len() as int),
        ),
    decreases s.len() - i,
{
    if i == s.len() {
        assert(enc_items(f, s, i) + rest =~= rest);
        assert(s.skip(i) =~= Seq::<T>::empty());
    } else {
        lemma_items_round_trip(f, g, s, i + 1, rest);
        let tail = enc_items(f, s, i + 1) + rest;
        assert(enc_items(f, s, i) + rest =~= f(s[i]) + tail);
        assert(g(f(s[i]) + tail) == Some((s[i], f(s[i]).len() as int)));
        assert((enc_items(f, s, i) + rest).skip(f(s[i]).len() as int) =~= tail);
        assert(seq![s[i]] + s.skip(i + 1) =~= s.skip(i));
    }
}

/// A list round trip, from the elementwise one.
pub proof fn lemma_list_round_trip<T>(
    f: spec_fn(T) -> Seq<u8>,
    g: spec_fn(Seq<u8>) -> Option<(T, int)>,
    s: Seq<T>,
    rest: Seq<u8>,
)
    requires
        s.len() <= usize::MAX,
        forall|j: int, r2: Seq<u8>|
            0 <= j < s.len() ==> #[trigger] g(f(s[j]) + r2) == Some((s[j], f(s[j]).len() as int)),
    ensures
        dec_list(g, enc_list(f, s) + rest) == Some((s, enc_list(f, s).len() as int)),
{
    let body = enc_items(f, s, 0) + rest;
    assert(enc_list(f, s) + rest =~= enc_le(s.len(), 8) + body);
    assert(pow256(8) == 0x10000000000000000) by {
        reveal_with_fuel(pow256, 9);
    }
    lemma_le_round_trip(s.len(), 8, body);
    lemma_enc_le_len(s.len(), 8);
    assert((enc_list(f, s) + rest).skip(8) =~= body);
    lemma_items_round_trip(f, g, s, 0, rest);
    assert(s.skip(0) =~= s);
}

pub open spec fn enc_move_f() -> spec_fn(Move) -> Seq<u8> {
    |m: Move| enc_move(m)
}

pub open spec fn dec_move_f() -> spec_fn(Seq<u8>) -> Option<(Move, int)> {
    |s2: Seq<u8>| dec_move(s2)
}

pub open spec fn enc_move_list(s: Seq<Move>) -> Seq<u8> {
    enc_list(enc_move_f(), s)
}

pub open spec fn dec_move_list(s: Seq<u8>) -> Option<(Seq<Move>, int)> {
    dec_list(dec_move_f(), s)
}

/// Append a list of moves.
pub fn encode_move_list(v: &Vec<Move>, out: &mut Vec<u8>)
    ensures
        final(out)@ == old(out)@ + enc_move_list(v@),
{
    let ghost out0 = out@;
    let ghost f = enc_move_f();
    encode_usize(v.len(), out);
    let mut i: usize = 0;
    while i < v.len()
        invariant
            i <= v@.len(),
            out@ + enc_items(f, v@, i as int) == out0 + enc_le(v@.len(), 8) + enc_items(f, v@, 0),
            f == enc_move_f(),
        decreases v@.len() - i,
    {
        let ghost outp = out@;
        encode_move(v[i], out);
        proof {
            assert(enc_items(f, v@, i as int) == f(v@[i as int]) + enc_items(f, v@, i + 1));
            assert(outp + (f(v@[i as int]) + enc_items(f, v@, i + 1)) =~= (outp + f(v@[i as int]))
                + enc_items(f, v@, i + 1));
        }
        i = i + 1;
    }
    proof {
        assert(out@ + enc_items(f, v@, v@.len() as int) =~= out@);
        assert(out0 + enc_le(v@.len(), 8) + enc_items(f, v@, 0) =~= out0 + enc_move_list(v@));
    }
}

/// Read a list of moves.
pub fn decode_move_list(input: &Vec<u8>, pos: usize) -> (r: Option<(Vec<Move>, usize)>)
    requires
        pos <= input@.len(),
    ensures
        match dec_move_list(input@.skip(pos as int)) {
            Some((v, c)) => 0 <= c && pos + c <= input@.len() && r is Some && r->Some_0.0@ == v
                && r->Some_0.1 == pos + c,
            None => r is None,
        },
{
    let ghost s = input@.skip(pos as int);
    proof {
        assert(vstd::std_specs::vec::spec_vec_len(input) == input@.len());
    }
    let ghost g = dec_move_f();
    let n = match decode_usize(input, pos) {
        Some((n, p1)) => (n, p1),
        None => {
            return None;
        },
    };
    let (count, start) = n;
    proof {
        assert(input@.skip(start as int) =~= s.skip(start - pos));
    }
    let mut acc: Vec<Move> = Vec::new();
    let mut cur: usize = start;
    let mut k: usize = 0;
    while k < count
        invariant
            s == input@.skip(pos as int),
            g == dec_move_f(),
            input@.len() <= usize::MAX,
            pos <= start <= cur <= input@.len(),
            k <= count,
            acc@.len() == k,
            dec_usize(s) == Some((count, (start - pos) as int)),
            match dec_items(g, input@.skip(cur as int), (count - k) as nat) {
                Some((vs, c2)) => dec_items(g, s.skip(start - pos), count as nat) == Some(
                    (acc@ + vs, (cur - start) + c2),
                ),
                None => dec_items(g, s.skip(start - pos), count as nat) is None,
            },
        decreases count - k,
    {
        let ghost accp = acc@;
        let ghost curp = cur;
        match decode_move(input, cur) {
            None => {
                return None;
            },
            Some((m, newpos)) => {
                acc.push(m);
                cur = newpos;
                proof {
                    let c = (newpos - curp) as int;
                    assert(g(input@.skip(curp as int)) == dec_move(input@.skip(curp as int)));
                    assert(dec_move(input@.skip(curp as int)) == Some((m, c)));
                    assert(input@.skip(curp as int).skip(c) =~= input@.skip(newpos as int));
                    assert(dec_items(g, input@.skip(curp as int), (count - k) as nat) == (
                    match dec_items(g, input@.skip(newpos as int), (count - k - 1) as nat) {
                        Some((vs, c2)) => Some((seq![m] + vs, c + c2)),
                        None => None::<(Seq<Move>, int)>,
                    }));
                    assert(acc@ =~= accp.push(m));
                    if dec_items(g, input@.skip(cur as int), (count - k - 1) as nat) is Some {
                        let (vs, c2) = dec_items(
                            g,
                            input@.skip(cur as int),
                            (count - k - 1) as nat,
                        )->Some_0;
                        assert(accp + (seq![m] + vs) =~= acc@ + vs);
                    }
                }
            },
        }
        k = k + 1;
    }
    proof {
        assert(dec_items(g, input@.skip(cur as int), 0) == Some((Seq::<Move>::empty(), 0int)));
        assert(acc@ + Seq::<Move>::empty() =~= acc@);
        assert(dec_items(g, s.skip(start - pos), count as nat) == Some(
            (acc@, (cur - start) as int),
        ));
    }
    Some((acc, cur))
}

/// Every move round-trips through its encoding.
pub proof fn lemma_move_list_round_trip(s: Seq<Move>, rest: Seq<u8>)
    requires
        s.len() <= usize::MAX,
    ensures
        dec_move_list(enc_move_list(s) + rest) == Some((s, enc_move_list(s).len() as int)),
{
    assert forall|j: int, r2: Seq<u8>|
        0 <= j < s.len() implies #[trigger] dec_move_f()(enc_move_f()(s[j]) + r2) == Some(
        (s[j], enc_move_f()(s[j]).len() as int),
    ) by {
        lemma_move_round_trip(s[j], r2);
    }
    lemma_list_round_trip(enc_move_f(), dec_move_f(), s, rest);
}


pub open spec fn flat_view_vec2(v: &Vec<Vec2>) -> Seq<Vec2> {
    v@
}

pub open spec fn flat_view_tile(v: &Vec<Tile>) -> Seq<Tile> {
    v@
}

pub open spec fn flat_view_setup_cell(v: &Vec<Option<SetupPieceType>>) -> Seq<
    Option<SetupPieceType>,
> {
    v@
}

pub open spec fn move_rows_view(v: &Vec<Vec<Move>>) -> Seq<Seq<Move>> {
    Seq::new(v@.len(), |i: int| v@[i]@)
}

pub open spec fn tile_rows_view(v: &Vec<Vec<Tile>>) -> Seq<Seq<Tile>> {
    Seq::new(v@.len(), |i: int| v@[i]@)
}

pub open spec fn setup_rows_view(v: &Vec<Vec<Option<SetupPieceType>>>) -> Seq<
    Seq<Option<SetupPieceType>>,
> {
    Seq::new(v@.len(), |i: int| v@[i]@)
}

pub open spec fn enc_setup_cell(o: Option<SetupPieceType>) -> Seq<u8> {
    match o {
        None => seq![0u8],
        Some(SetupPieceType::King) => seq![1u8],
        Some(SetupPieceType::Queen) => seq![2u8],
        Some(SetupPieceType::Castle) => seq![3u8],
        Some(SetupPieceType::Bishop) => seq![4u8],
        Some(SetupPieceType::Knight) => seq![5u8],
        Some(SetupPieceType::Pawn) => seq![6u8],
    }
}

pub open spec fn dec_setup_cell(s: Seq<u8>) -> Option<(Option<SetupPieceType>, int)> {
    if s.len() < 1 {
        None
    } else if s[0] == 0 {
        Some((None, 1))
    } else if s[0] == 1 {
        Some((Some(SetupPieceType::King), 1))
    } else if s[0] == 2 {
        Some((Some(SetupPieceType::Queen), 1))
    } else if s[0] == 3 {
        Some((Some(SetupPieceType::Castle), 1))
    } else if s[0] == 4 {
        Some((Some(SetupPieceType::Bishop), 1))
    } else if s[0] == 5 {
        Some((Some(SetupPieceType::Knight), 1))
    } else if s[0] == 6 {
        Some((Some(SetupPieceType::Pawn), 1))
    } else {
        None
    }
}

/// Append one setup cell.
pub fn encode_setup_cell(o: Option<SetupPieceType>, out: &mut Vec<u8>)
    ensures
        final(out)@ == old(out)@ + enc_setup_cell(o),
{
    out.push(
        match o {
            None => 0,
            Some(SetupPieceType::King) => 1,
            Some(SetupPieceType::Queen) => 2,
            Some(SetupPieceType::Castle) => 3,
            Some(SetupPieceType::Bishop) => 4,
            Some(SetupPieceType::Knight) => 5,
            Some(SetupPieceType::Pawn) => 6,
        },
    );
    proof {
        assert(final(out)@ =~= old(out)@ + enc_setup_cell(o));
    }
}

/// Read one setup cell.
pub fn decode_setup_cell(input: &Vec<u8>, pos: usize) -> (r: Option<
    (Option<SetupPieceType>, usize),
>)
    requires
        pos <= input@.len(),
    ensures
        match dec_setup_cell(input@.skip(pos as int)) {
            Some((v, c)) => 0 <= c && pos + c <= input@.len() && r == Some((v, (pos + c) as usize)),
            None => r is None,
        },
{
    if pos >= input.len() {
        return None;
    }
    let b = input[pos];
    if b == 0 {
        Some((None, pos + 1))
    } else if b == 1 {
        Some((Some(SetupPieceType::King), pos + 1))
    } else if b == 2 {
        Some((Some(SetupPieceType::Queen), pos + 1))
    } else if b == 3 {
        Some((Some(SetupPieceType::Castle), pos + 1))
    } else if b == 4 {
        Some((Some(SetupPieceType::Bishop), pos + 1))
    } else if b == 5 {
        Some((Some(SetupPieceType::Knight), pos + 1))
    } else if b == 6 {
        Some((Some(SetupPieceType::Pawn), pos + 1))
    } else {
        None
    }
}

pub proof fn lemma_setup_cell_round_trip(o: Option<SetupPieceType>, rest: Seq<u8>)
    ensures
        dec_setup_cell(enc_setup_cell(o) + rest) == Some((o, 1int)),
{
    assert((enc_setup_cell(o) + rest)[0] == enc_setup_cell(o)[0]);
}


pub open spec fn enc_vec2_f() -> spec_fn(Vec2) -> Seq<u8> {
    |m: Vec2| enc_vec2(m)
}

pub open spec fn dec_vec2_f() -> spec_fn(Seq<u8>) -> Option<(Vec2, int)> {
    |s2: Seq<u8>| dec_vec2(s2)
}

pub open spec fn enc_vec2_list(s: Seq<Vec2>) -> Seq<u8> {
    enc_list(enc_vec2_f(), s)
}

pub open spec fn dec_vec2_list(s: Seq<u8>) -> Option<(Seq<Vec2>, int)> {
    dec_list(dec_vec2_f(), s)
}

/// Append a list of coordinates.
pub fn encode_vec2_list(v: &Vec<Vec2>, out: &mut Vec<u8>)
    ensures
        final(out)@ == old(out)@ + enc_vec2_list(flat_view_vec2(v)),
{
    let ghost out0 = out@;
    let ghost f = enc_vec2_f();
    let ghost vv = flat_view_vec2(v);
    encode_usize(v.len(), out);
    let mut i: usize = 0;
    while i < v.len()
        invariant
            vv == flat_view_vec2(v),
            v@.len() == vv.len(),
            i <= vv.len(),
            out@ + enc_items(f, vv, i as int) == out0 + enc_le(vv.len(), 8) + enc_items(f, vv, 0),
            f == enc_vec2_f(),
        decreases vv.len() - i,
    {
        let ghost outp = out@;
        encode_vec2(v[i], out);
        proof {
            assert(v@[i as int] == vv[i as int]);
            assert(enc_items(f, vv, i as int) == f(vv[i as int]) + enc_items(f, vv, i + 1));
            assert(outp + (f(vv[i as int]) + enc_items(f, vv, i + 1)) =~= (outp + f(vv[i as int]))
                + enc_items(f, vv, i + 1));
        }
        i = i + 1;
    }
    proof {
        assert(out@ + enc_items(f, vv, vv.len() as int) =~= out@);
        assert(out0 + enc_le(vv.len(), 8) + enc_items(f, vv, 0) =~= out0 + enc_vec2_list(vv));
    }
}

/// Read a list of coordinates.
pub fn decode_vec2_list(input: &Vec<u8>, pos: usize) -> (r: Option<(Vec<Vec2>, usize)>)
    requires
        pos <= input@.len(),
    ensures
        match dec_vec2_list(input@.skip(pos as int)) {
            Some((v, c)) => 0 <= c && pos + c <= input@.len() && r is Some && flat_view_vec2(&r->Some_0.0)
                == v && r->Some_0.1 == pos + c,
            None => r is None,
        },
{
    let ghost s = input@.skip(pos as int);
    proof {
        assert(vstd::std_specs::vec::spec_vec_len(input) == input@.len());
    }
    let ghost g = dec_vec2_f();
    let n = match decode_usize(input, pos) {
        Some((n, p1)) => (n, p1),
        None => {
            return None;
        },
    };
    let (count, start) = n;
    proof {
        assert(input@.skip(start as int) =~= s.skip(start - pos));
    }
    let mut acc: Vec<Vec2> = Vec::new();
    let mut cur: usize = start;
    let mut k: usize = 0;
    while k < count
        invariant
            s == input@.skip(pos as int),
            g == dec_vec2_f(),
            input@.len() <= usize::MAX,
            pos <= start <= cur <= input@.len(),
            k <= count,
            acc@.len() == k,
            dec_usize(s) == Some((count, (start - pos) as int)),
            match dec_items(g, input@.skip(cur as int), (count - k) as nat) {
                Some((vs, c2)) => dec_items(g, s.skip(start - pos), count as nat) == Some(
                    (acc@ + vs, (cur - start) + c2),
                ),
                None => dec_items(g, s.skip(start - pos), count as nat) is None,
            },
        decreases count - k,
    {
        let ghost accp = acc@;
        let ghost curp = cur;
        match decode_vec2(input, cur) {
            None => {
                return None;
            },
            Some((m, newpos)) => {
                let ghost mv = m;
                acc.push(m);
                cur = newpos;
                proof {
                    let c = (newpos - curp) as int;
                    assert(g(input@.skip(curp as int)) == dec_vec2(input@.skip(curp as int)));
                    assert(dec_vec2(input@.skip(curp as int)) == Some((mv, c)));
                    assert(input@.skip(curp as int).skip(c) =~= input@.skip(newpos as int));
                    assert(dec_items(g, input@.skip(curp as int), (count - k) as nat) == (
                    match dec_items(g, input@.skip(newpos as int), (count - k - 1) as nat) {
                        Some((vs, c2)) => Some((seq![mv] + vs, c + c2)),
                        None => None::<(Seq<Vec2>, int)>,
                    }));
                    assert(acc@ =~= accp.push(mv));
                    if dec_items(g, input@.skip(cur as int), (count - k - 1) as nat) is Some {
                        let (vs, c2) = dec_items(
                            g,
                            input@.skip(cur as int),
                            (count - k - 1) as nat,
                        )->Some_0;
                        assert(accp + (seq![mv] + vs) =~= acc@ + vs);
                    }
                }
            },
        }
        k = k + 1;
    }
    proof {
        assert(dec_items(g, input@.skip(cur as int), 0) == Some((Seq::<Vec2>::empty(), 0int)));
        assert(acc@ + Seq::<Vec2>::empty() =~= acc@);
        assert(dec_items(g, s.skip(start - pos), count as nat) == Some(
            (acc@, (cur - start) as int),
        ));
    }
    Some((acc, cur))
}

pub proof fn lemma_vec2_list_round_trip(s: Seq<Vec2>, rest: Seq<u8>)
    requires
        s.len() <= usize::MAX,
    ensures
        dec_vec2_list(enc_vec2_list(s) + rest) == Some((s, enc_vec2_list(s).len() as int)),
{
    assert forall|j: int, r2: Seq<u8>|
        0 <= j < s.len() implies #[trigger] dec_vec2_f()(enc_vec2_f()(s[j]) + r2) == Some(
        (s[j], enc_vec2_f()(s[j]).len() as int),
    ) by {
        lemma_vec2_round_trip(s[j], r2);
    }
    lemma_list_round_trip(enc_vec2_f(), dec_vec2_f(), s, rest);
}


pub open spec fn enc_move_rows_f() -> spec_fn(Seq<Move>) -> Seq<u8> {
    |m: Seq<Move>| enc_move_list(m)
}

pub open spec fn dec_move_rows_f() -> spec_fn(Seq<u8>) -> Option<(Seq<Move>, int)> {
    |s2: Seq<u8>| dec_move_list(s2)
}

pub open spec fn enc_move_rows_list(s: Seq<Seq<Move>>) -> Seq<u8> {
    enc_list(enc_move_rows_f(), s)
}

pub open spec fn dec_move_rows_list(s: Seq<u8>) -> Option<(Seq<Seq<Move>>, int)> {
    dec_list(dec_move_rows_f(), s)
}

/// Append a list of move lists.
pub fn encode_move_rows_list(v: &Vec<Vec<Move>>, out: &mut Vec<u8>)
    ensures
        final(out)@ == old(out)@ + enc_move_rows_list(move_rows_view(v)),
{
    let ghost out0 = out@;
    let ghost f = enc_move_rows_f();
    let ghost vv = move_rows_view(v);
    encode_usize(v.len(), out);
    let mut i: usize = 0;
    while i < v.len()
        invariant
            vv == move_rows_view(v),
            v@.len() == vv.len(),
            i <= vv.len(),
            out@ + enc_items(f, vv, i as int) == out0 + enc_le(vv.len(), 8) + enc_items(f, vv, 0),
            f == enc_move_rows_f(),
        decreases vv.len() - i,
    {
        let ghost outp = out@;
        encode_move_list(&v[i], out);
        proof {
            assert(v@[i as int]@ == vv[i as int]);
            assert(enc_items(f, vv, i as int) == f(vv[i as int]) + enc_items(f, vv, i + 1));
            assert(outp + (f(vv[i as int]) + enc_items(f, vv, i + 1)) =~= (outp + f(vv[i as int]))
                + enc_items(f, vv, i + 1));
        }
        i = i + 1;
    }
    proof {
        assert(out@ + enc_items(f, vv, vv.len() as int) =~= out@);
        assert(out0 + enc_le(vv.len(), 8) + enc_items(f, vv, 0) =~= out0 + enc_move_rows_list(vv));
    }
}

/// Read a list of move lists.
pub fn decode_move_rows_list(input: &Vec<u8>, pos: usize) -> (r: Option<(Vec<Vec<Move>>, usize)>)
    requires
        pos <= input@.len(),
    ensures
        match dec_move_rows_list(input@.skip(pos as int)) {
            Some((v, c)) => 0 <= c && pos + c <= input@.len() && r is Some && move_rows_view(&r->Some_0.0)
                == v && r->Some_0.1 == pos + c,
            None => r is None,
        },
{
    let ghost s = input@.skip(pos as int);
    proof {
        assert(vstd::std_specs::vec::spec_vec_len(input) == input@.len());
    }
    let ghost g = dec_move_rows_f();
    let n = match decode_usize(input, pos) {
        Some((n, p1)) => (n, p1),
        None => {
            return None;
        },
    };
    let (count, start) = n;
    proof {
        assert(input@.skip(start as int) =~= s.skip(start - pos));
    }
    let mut acc: Vec<Vec<Move>> = Vec::new();
    let mut cur: usize = start;
    let mut k: usize = 0;
    while k < count
        invariant
            s == input@.skip(pos as int),
            g == dec_move_rows_f(),
            input@.len() <= usize::MAX,
            pos <= start <= cur <= input@.len(),
            k <= count,
            acc@.len() == k,
            dec_usize(s) == Some((count, (start - pos) as int)),
            match dec_items(g, input@.skip(cur as int), (count - k) as nat) {
                Some((vs, c2)) => dec_items(g, s.skip(start - pos), count as nat) == Some(
                    (move_rows_view(&acc) + vs, (cur - start) + c2),
                ),
                None => dec_items(g, s.skip(start - pos), count as nat) is None,
            },
        decreases count - k,
    {
        let ghost accp = move_rows_view(&acc);
        let ghost curp = cur;
        match decode_move_list(input, cur) {
            None => {
                return None;
            },
            Some((m, newpos)) => {
                let ghost mv = m@;
                acc.push(m);
                cur = newpos;
                proof {
                    let c = (newpos - curp) as int;
                    assert(g(input@.skip(curp as int)) == dec_move_list(input@.skip(curp as int)));
                    assert(dec_move_list(input@.skip(curp as int)) == Some((mv, c)));
                    assert(input@.skip(curp as int).skip(c) =~= input@.skip(newpos as int));
                    assert(dec_items(g, input@.skip(curp as int), (count - k) as nat) == (
                    match dec_items(g, input@.skip(newpos as int), (count - k - 1) as nat) {
                        Some((vs, c2)) => Some((seq![mv] + vs, c + c2)),
                        None => None::<(Seq<Seq<Move>>, int)>,
                    }));
                    assert(move_rows_view(&acc) =~= accp.push(mv));
                    if dec_items(g, input@.skip(cur as int), (count - k - 1) as nat) is Some {
                        let (vs, c2) = dec_items(
                            g,
                            input@.skip(cur as int),
                            (count - k - 1) as nat,
                        )->Some_0;
                        assert(accp + (seq![mv] + vs) =~= move_rows_view(&acc) + vs);
                    }
                }
            },
        }
        k = k + 1;
    }
    proof {
        assert(dec_items(g, input@.skip(cur as int), 0) == Some((Seq::<Seq<Move>>::empty(), 0int)));
        assert(move_rows_view(&acc) + Seq::<Seq<Move>>::empty() =~= move_rows_view(&acc));
        assert(dec_items(g, s.skip(start - pos), count as nat) == Some(
            (move_rows_view(&acc), (cur - start) as int),
        ));
    }
    Some((acc, cur))
}

pub proof fn lemma_move_rows_list_round_trip(s: Seq<Seq<Move>>, rest: Seq<u8>)
    requires
        s.len() <= usize::MAX,
        forall|i: int| 0 <= i < s.len() ==> (#[trigger] s[i]).len() <= usize::MAX,
    ensures
        dec_move_rows_list(enc_move_rows_list(s) + rest) == Some((s, enc_move_rows_list(s).len() as int)),
{
    assert forall|j: int, r2: Seq<u8>|
        0 <= j < s.len() implies #[trigger] dec_move_rows_f()(enc_move_rows_f()(s[j]) + r2) == Some(
        (s[j], enc_move_rows_f()(s[j]).len() as int),
    ) by {
        lemma_move_list_round_trip(s[j], r2);
    }
    lemma_list_round_trip(enc_move_rows_f(), dec_move_rows_f(), s, rest);
}


pub open spec fn enc_tile_f() -> spec_fn(Tile) -> Seq<u8> {
    |m: Tile| enc_tile(m)
}

pub open spec fn dec_tile_f() -> spec_fn(Seq<u8>) -> Option<(Tile, int)> {
    |s2: Seq<u8>| dec_tile(s2)
}

pub open spec fn enc_tile_list(s: Seq<Tile>) -> Seq<u8> {
    enc_list(enc_tile_f(), s)
}

pub open spec fn dec_tile_list(s: Seq<u8>) -> Option<(Seq<Tile>, int)> {
    dec_list(dec_tile_f(), s)
}

/// Append a list of tiles.
pub fn encode_tile_list(v: &Vec<Tile>, out: &mut Vec<u8>)
    ensures
        final(out)@ == old(out)@ + enc_tile_list(flat_view_tile(v)),
{
    let ghost out0 = out@;
    let ghost f = enc_tile_f();
    let ghost vv = flat_view_tile(v);
    encode_usize(v.len(), out);
    let mut i: usize = 0;
    while i < v.len()
        invariant
            vv == flat_view_tile(v),
            v@.len() == vv.len(),
            i <= vv.len(),
            out@ + enc_items(f, vv, i as int) == out0 + enc_le(vv.len(), 8) + enc_items(f, vv, 0),
            f == enc_tile_f(),
        decreases vv.len() - i,
    {
        let ghost outp = out@;
        encode_tile(v[i], out);
        proof {
            assert(v@[i as int] == vv[i as int]);
            assert(enc_items(f, vv, i as int) == f(vv[i as int]) + enc_items(f, vv, i + 1));
            assert(outp + (f(vv[i as int]) + enc_items(f, vv, i + 1)) =~= (outp + f(vv[i as int]))
                + enc_items(f, vv, i + 1));
        }
        i = i + 1;
    }
    proof {
        assert(out@ + enc_items(f, vv, vv.len() as int) =~= out@);
        assert(out0 + enc_le(vv.len(), 8) + enc_items(f, vv, 0) =~= out0 + enc_tile_list(vv));
    }
}

/// Read a list of tiles.
pub fn decode_tile_list(input: &Vec<u8>, pos: usize) -> (r: Option<(Vec<Tile>, usize)>)
    requires
        pos <= input@.len(),
    ensures
        match dec_tile_list(input@.skip(pos as int)) {
            Some((v, c)) => 0 <= c && pos + c <= input@.len() && r is Some && flat_view_tile(&r->Some_0.0)
                == v && r->Some_0.1 == pos + c,
            None => r is None,
        },
{
    let ghost s = input@.skip(pos as int);
    proof {
        assert(vstd::std_specs::vec::spec_vec_len(input) == input@.len());
    }
    let ghost g = dec_tile_f();
    let n = match decode_usize(input, pos) {
        Some((n, p1)) => (n, p1),
        None => {
            return None;
        },
    };
    let (count, start) = n;
    proof {
        assert(input@.skip(start as int) =~= s.skip(start - pos));
    }
    let mut acc: Vec<Tile> = Vec::new();
    let mut cur: usize = start;
    let mut k: usize = 0;
    while k < count
        invariant
            s == input@.skip(pos as int),
            g == dec_tile_f(),
            input@.len() <= usize::MAX,
            pos <= start <= cur <= input@.len(),
            k <= count,
            acc@.len() == k,
            dec_usize(s) == Some((count, (start - pos) as int)),
            match dec_items(g, input@.skip(cur as int), (count - k) as nat) {
                Some((vs, c2)) => dec_items(g, s.skip(start - pos), count as nat) == Some(
                    (acc@ + vs, (cur - start) + c2),
                ),
                None => dec_items(g, s.skip(start - pos), count as nat) is None,
            },
        decreases count - k,
    {
        let ghost accp = acc@;
        let ghost curp = cur;
        match decode_tile(input, cur) {
            None => {
                return None;
            },
            Some((m, newpos)) => {
                let ghost mv = m;
                acc.push(m);
                cur = newpos;
                proof {
                    let c = (newpos - curp) as int;
                    assert(g(input@.skip(curp as int)) == dec_tile(input@.skip(curp as int)));
                    assert(dec_tile(input@.skip(curp as int)) == Some((mv, c)));
                    assert(input@.skip(curp as int).skip(c) =~= input@.skip(newpos as int));
                    assert(dec_items(g, input@.skip(curp as int), (count - k) as nat) == (
                    match dec_items(g, input@.skip(newpos as int), (count - k - 1) as nat) {
                        Some((vs, c2)) => Some((seq![mv] + vs, c + c2)),
                        None => None::<(Seq<Tile>, int)>,
                    }));
                    assert(acc@ =~= accp.push(mv));
                    if dec_items(g, input@.skip(cur as int), (count - k - 1) as nat) is Some {
                        let (vs, c2) = dec_items(
                            g,
                            input@.skip(cur as int),
                            (count - k - 1) as nat,
                        )->Some_0;
                        assert(accp + (seq![mv] + vs) =~= acc@ + vs);
                    }
                }
            },
        }
        k = k + 1;
    }
    proof {
        assert(dec_items(g, input@.skip(cur as int), 0) == Some((Seq::<Tile>::empty(), 0int)));
        assert(acc@ + Seq::<Tile>::empty() =~= acc@);
        assert(dec_items(g, s.skip(start - pos), count as nat) == Some(
            (acc@, (cur - start) as int),
        ));
    }
    Some((acc, cur))
}

pub proof fn lemma_tile_list_round_trip(s: Seq<Tile>, rest: Seq<u8>)
    requires
        s.len() <= usize::MAX,
    ensures
        dec_tile_list(enc_tile_list(s) + rest) == Some((s, enc_tile_list(s).len() as int)),
{
    assert forall|j: int, r2: Seq<u8>|
        0 <= j < s.len() implies #[trigger] dec_tile_f()(enc_tile_f()(s[j]) + r2) == Some(
        (s[j], enc_tile_f()(s[j]).len() as int),
    ) by {
        lemma_tile_round_trip(s[j], r2);
    }
    lemma_list_round_trip(enc_tile_f(), dec_tile_f(), s, rest);
}


pub open spec fn enc_tile_rows_f() -> spec_fn(Seq<Tile>) -> Seq<u8> {
    |m: Seq<Tile>| enc_tile_list(m)
}

pub open spec fn dec_tile_rows_f() -> spec_fn(Seq<u8>) -> Option<(Seq<Tile>, int)> {
    |s2: Seq<u8>| dec_tile_list(s2)
}

pub open spec fn enc_tile_rows_list(s: Seq<Seq<Tile>>) -> Seq<u8> {
    enc_list(enc_tile_rows_f(), s)
}

pub open spec fn dec_tile_rows_list(s: Seq<u8>) -> Option<(Seq<Seq<Tile>>, int)> {
    dec_list(dec_tile_rows_f(), s)
}

/// Append a list of tile rows.
pub fn encode_tile_rows_list(v: &Vec<Vec<Tile>>, out: &mut Vec<u8>)
    ensures
        final(out)@ == old(out)@ + enc_tile_rows_list(tile_rows_view(v)),
{
    let ghost out0 = out@;
    let ghost f = enc_tile_rows_f();
    let ghost vv = tile_rows_view(v);
    encode_usize(v.len(), out);
    let mut i: usize = 0;
    while i < v.len()
        invariant
            vv == tile_rows_view(v),
            v@.len() == vv.len(),
            i <= vv.len(),
            out@ + enc_items(f, vv, i as int) == out0 + enc_le(vv.len(), 8) + enc_items(f, vv, 0),
            f == enc_tile_rows_f(),
        decreases vv.len() - i,
    {
        let ghost outp = out@;
        encode_tile_list(&v[i], out);
        proof {
            assert(v@[i as int]@ == vv[i as int]);
            assert(enc_items(f, vv, i as int) == f(vv[i as int]) + enc_items(f, vv, i + 1));
            assert(outp + (f(vv[i as int]) + enc_items(f, vv, i + 1)) =~= (outp + f(vv[i as int]))
                + enc_items(f, vv, i + 1));
        }
        i = i + 1;
    }
    proof {
        assert(out@ + enc_items(f, vv, vv.len() as int) =~= out@);
        assert(out0 + enc_le(vv.len(), 8) + enc_items(f, vv, 0) =~= out0 + enc_tile_rows_list(vv));
    }
}

/// Read a list of tile rows.
pub fn decode_tile_rows_list(input: &Vec<u8>, pos: usize) -> (r: Option<(Vec<Vec<Tile>>, usize)>)
    requires
        pos <= input@.len(),
    ensures
        match dec_tile_rows_list(input@.skip(pos as int)) {
            Some((v, c)) => 0 <= c && pos + c <= input@.len() && r is Some && tile_rows_view(&r->Some_0.0)
                == v && r->Some_0.1 == pos + c,
            None => r is None,
        },
{
    let ghost s = input@.skip(pos as int);
    proof {
        assert(vstd::std_specs::vec::spec_vec_len(input) == input@.len());
    }
    let ghost g = dec_tile_rows_f();
    let n = match decode_usize(input, pos) {
        Some((n, p1)) => (n, p1),
        None => {
            return None;
        },
    };
    let (count, start) = n;
    proof {
        assert(input@.skip(start as int) =~= s.skip(start - pos));
    }
    let mut acc: Vec<Vec<Tile>> = Vec::new();
    let mut cur: usize = start;
    let mut k: usize = 0;
    while k < count
        invariant
            s == input@.skip(pos as int),
            g == dec_tile_rows_f(),
            input@.len() <= usize::MAX,
            pos <= start <= cur <= input@.len(),
            k <= count,
            acc@.len() == k,
            dec_usize(s) == Some((count, (start - pos) as int)),
            match dec_items(g, input@.skip(cur as int), (count - k) as nat) {
                Some((vs, c2)) => dec_items(g, s.skip(start - pos), count as nat) == Some(
                    (tile_rows_view(&acc) + vs, (cur - start) + c2),
                ),
                None => dec_items(g, s.skip(start - pos), count as nat) is None,
            },
        decreases count - k,
    {
        let ghost accp = tile_rows_view(&acc);
        let ghost curp = cur;
        match decode_tile_list(input, cur) {
            None => {
                return None;
            },
            Some((m, newpos)) => {
                let ghost mv = m@;
                acc.push(m);
                cur = newpos;
                proof {
                    let c = (newpos - curp) as int;
                    assert(g(input@.skip(curp as int)) == dec_tile_list(input@.skip(curp as int)));
                    assert(dec_tile_list(input@.skip(curp as int)) == Some((mv, c)));
                    assert(input@.skip(curp as int).skip(c) =~= input@.skip(newpos as int));
                    assert(dec_items(g, input@.skip(curp as int), (count - k) as nat) == (
                    match dec_items(g, input@.skip(newpos as int), (count - k - 1) as nat) {
                        Some((vs, c2)) => Some((seq![mv] + vs, c + c2)),
                        None => None::<(Seq<Seq<Tile>>, int)>,
                    }));
                    assert(tile_rows_view(&acc) =~= accp.push(mv));
                    if dec_items(g, input@.skip(cur as int), (count - k - 1) as nat) is Some {
                        let (vs, c2) = dec_items(
                            g,
                            input@.skip(cur as int),
                            (count - k - 1) as nat,
                        )->Some_0;
                        assert(accp + (seq![mv] + vs) =~= tile_rows_view(&acc) + vs);
                    }
                }
            },
        }
        k = k + 1;
    }
    proof {
        assert(dec_items(g, input@.skip(cur as int), 0) == Some((Seq::<Seq<Tile>>::empty(), 0int)));
        assert(tile_rows_view(&acc) + Seq::<Seq<Tile>>::empty() =~= tile_rows_view(&acc));
        assert(dec_items(g, s.skip(start - pos), count as nat) == Some(
            (tile_rows_view(&acc), (cur - start) as int),
        ));
    }
    Some((acc, cur))
}

pub proof fn lemma_tile_rows_list_round_trip(s: Seq<Seq<Tile>>, rest: Seq<u8>)
    requires
        s.len() <= usize::MAX,
        forall|i: int| 0 <= i < s.len() ==> (#[trigger] s[i]).len() <= usize::MAX,
    ensures
        dec_tile_rows_list(enc_tile_rows_list(s) + rest) == Some((s, enc_tile_rows_list(s).len() as int)),
{
    assert forall|j: int, r2: Seq<u8>|
        0 <= j < s.len() implies #[trigger] dec_tile_rows_f()(enc_tile_rows_f()(s[j]) + r2) == Some(
        (s[j], enc_tile_rows_f()(s[j]).len() as int),
    ) by {
        lemma_tile_list_round_trip(s[j], r2);
    }
    lemma_list_round_trip(enc_tile_rows_f(), dec_tile_rows_f(), s, rest);
}


pub open spec fn enc_setup_cell_f() -> spec_fn(Option<SetupPieceType>) -> Seq<u8> {
    |m: Option<SetupPieceType>| enc_setup_cell(m)
}

pub open spec fn dec_setup_cell_f() -> spec_fn(Seq<u8>) -> Option<(Option<SetupPieceType>, int)> {
    |s2: Seq<u8>| dec_setup_cell(s2)
}

pub open spec fn enc_setup_cell_list(s: Seq<Option<SetupPieceType>>) -> Seq<u8> {
    enc_list(enc_setup_cell_f(), s)
}

pub open spec fn dec_setup_cell_list(s: Seq<u8>) -> Option<(Seq<Option<SetupPieceType>>, int)> {
    dec_list(dec_setup_cell_f(), s)
}

/// Append a list of setup cells.
pub fn encode_setup_cell_list(v: &Vec<Option<SetupPieceType>>, out: &mut Vec<u8>)
    ensures
        final(out)@ == old(out)@ + enc_setup_cell_list(flat_view_setup_cell(v)),
{
    let ghost out0 = out@;
    let ghost f = enc_setup_cell_f();
    let ghost vv = flat_view_setup_cell(v);
    encode_usize(v.len(), out);
    let mut i: usize = 0;
    while i < v.len()
        invariant
            vv == flat_view_setup_cell(v),
            v@.len() == vv.len(),
            i <= vv.len(),
            out@ + enc_items(f, vv, i as int) == out0 + enc_le(vv.len(), 8) + enc_items(f, vv, 0),
            f == enc_setup_cell_f(),
        decreases vv.len() - i,
    {
        let ghost outp = out@;
        encode_setup_cell(v[i], out);
        proof {
            assert(v@[i as int] == vv[i as int]);
            assert(enc_items(f, vv, i as int) == f(vv[i as int]) + enc_items(f, vv, i + 1));
            assert(outp + (f(vv[i as int]) + enc_items(f, vv, i + 1)) =~= (outp + f(vv[i as int]))
                + enc_items(f, vv, i + 1));
        }
        i = i + 1;
    }
    proof {
        assert(out@ + enc_items(f, vv, vv.len() as int) =~= out@);
        assert(out0 + enc_le(vv.len(), 8) + enc_items(f, vv, 0) =~= out0 + enc_setup_cell_list(vv));
    }
}

/// Read a list of setup cells.
pub fn decode_setup_cell_list(input: &Vec<u8>, pos: usize) -> (r: Option<(Vec<Option<SetupPieceType>>, usize)>)
    requires
        pos <= input@.len(),
    ensures
        match dec_setup_cell_list(input@.skip(pos as int)) {
            Some((v, c)) => 0 <= c && pos + c <= input@.len() && r is Some && flat_view_setup_cell(&r->Some_0.0)
                == v && r->Some_0.1 == pos + c,
            None => r is None,
        },
{
    let ghost s = input@.skip(pos as int);
    proof {
        assert(vstd::std_specs::vec::spec_vec_len(input) == input@.len());
    }
    let ghost g = dec_setup_cell_f();
    let n = match decode_usize(input, pos) {
        Some((n, p1)) => (n, p1),
        None => {
            return None;
        },
    };
    let (count, start) = n;
    proof {
        assert(input@.skip(start as int) =~= s.skip(start - pos));
    }
    let mut acc: Vec<Option<SetupPieceType>> = Vec::new();
    let mut cur: usize = start;
    let mut k: usize = 0;
    while k < count
        invariant
            s == input@.skip(pos as int),
            g == dec_setup_cell_f(),
            input@.len() <= usize::MAX,
            pos <= start <= cur <= input@.len(),
            k <= count,
            acc@.len() == k,
            dec_usize(s) == Some((count, (start - pos) as int)),
            match dec_items(g, input@.skip(cur as int), (count - k) as nat) {
                Some((vs, c2)) => dec_items(g, s.skip(start - pos), count as nat) == Some(
                    (acc@ + vs, (cur - start) + c2),
                ),
                None => dec_items(g, s.skip(start - pos), count as nat) is None,
            },
        decreases count - k,
    {
        let ghost accp = acc@;
        let ghost curp = cur;
        match decode_setup_cell(input, cur) {
            None => {
                return None;
            },
            Some((m, newpos)) => {
                let ghost mv = m;
                acc.push(m);
                cur = newpos;
                proof {
                    let c = (newpos - curp) as int;
                    assert(g(input@.skip(curp as int)) == dec_setup_cell(input@.skip(curp as int)));
                    assert(dec_setup_cell(input@.skip(curp as int)) == Some((mv, c)));
                    assert(input@.skip(curp as int).skip(c) =~= input@.skip(newpos as int));
                    assert(dec_items(g, input@.skip(curp as int), (count - k) as nat) == (
                    match dec_items(g, input@.skip(newpos as int), (count - k - 1) as nat) {
                        Some((vs, c2)) => Some((seq![mv] + vs, c + c2)),
                        None => None::<(Seq<Option<SetupPieceType>>, int)>,
                    }));
                    assert(acc@ =~= accp.push(mv));
                    if dec_items(g, input@.skip(cur as int), (count - k - 1) as nat) is Some {
                        let (vs, c2) = dec_items(
                            g,
                            input@.skip(cur as int),
                            (count - k - 1) as nat,
                        )->Some_0;
                        assert(accp + (seq![mv] + vs) =~= acc@ + vs);
                    }
                }
            },
        }
        k = k + 1;
    }
    proof {
        assert(dec_items(g, input@.skip(cur as int), 0) == Some((Seq::<Option<SetupPieceType>>::empty(), 0int)));
        assert(acc@ + Seq::<Option<SetupPieceType>>::empty() =~= acc@);
        assert(dec_items(g, s.skip(start - pos), count as nat) == Some(
            (acc@, (cur - start) as int),
        ));
    }
    Some((acc, cur))
}

pub proof fn lemma_setup_cell_list_round_trip(s: Seq<Option<SetupPieceType>>, rest: Seq<u8>)
    requires
        s.len() <= usize::MAX,
    ensures
        dec_setup_cell_list(enc_setup_cell_list(s) + rest) == Some((s, enc_setup_cell_list(s).len() as int)),
{
    assert forall|j: int, r2: Seq<u8>|
        0 <= j < s.len() implies #[trigger] dec_setup_cell_f()(enc_setup_cell_f()(s[j]) + r2) == Some(
        (s[j], enc_setup_cell_f()(s[j]).len() as int),
    ) by {
        lemma_setup_cell_round_trip(s[j], r2);
    }
    lemma_list_round_trip(enc_setup_cell_f(), dec_setup_cell_f(), s, rest);
}


pub open spec fn enc_setup_rows_f() -> spec_fn(Seq<Option<SetupPieceType>>) -> Seq<u8> {
    |m: Seq<Option<SetupPieceType>>| enc_setup_cell_list(m)
}

pub open spec fn dec_setup_rows_f() -> spec_fn(Seq<u8>) -> Option<(Seq<Option<SetupPieceType>>, int)> {
    |s2: Seq<u8>| dec_setup_cell_list(s2)
}

pub open spec fn enc_setup_rows_list(s: Seq<Seq<Option<SetupPieceType>>>) -> Seq<u8> {
    enc_list(enc_setup_rows_f(), s)
}

pub open spec fn dec_setup_rows_list(s: Seq<u8>) -> Option<(Seq<Seq<Option<SetupPieceType>>>, int)> {
    dec_list(dec_setup_rows_f(), s)
}

/// Append a list of setup rows.
pub fn encode_setup_rows_list(v: &Vec<Vec<Option<SetupPieceType>>>, out: &mut Vec<u8>)
    ensures
        final(out)@ == old(out)@ + enc_setup_rows_list(setup_rows_view(v)),
{
    let ghost out0 = out@;
    let ghost f = enc_setup_rows_f();
    let ghost vv = setup_rows_view(v);
    encode_usize(v.len(), out);
    let mut i: usize = 0;
    while i < v.len()
        invariant
            vv == setup_rows_view(v),
            v@.len() == vv.len(),
            i <= vv.len(),
            out@ + enc_items(f, vv, i as int) == out0 + enc_le(vv.len(), 8) + enc_items(f, vv, 0),
            f == enc_setup_rows_f(),
        decreases vv.len() - i,
    {
        let ghost outp = out@;
        encode_setup_cell_list(&v[i], out);
        proof {
            assert(v@[i as int]@ == vv[i as int]);
            assert(enc_items(f, vv, i as int) == f(vv[i as int]) + enc_items(f, vv, i + 1));
            assert(outp + (f(vv[i as int]) + enc_items(f, vv, i + 1)) =~= (outp + f(vv[i as int]))
                + enc_items(f, vv, i + 1));
        }
        i = i + 1;
    }
    proof {
        assert(out@ + enc_items(f, vv, vv.len() as int) =~= out@);
        assert(out0 + enc_le(vv.len(), 8) + enc_items(f, vv, 0) =~= out0 + enc_setup_rows_list(vv));
    }
}

/// Read a list of setup rows.
pub fn decode_setup_rows_list(input: &Vec<u8>, pos: usize) -> (r: Option<(Vec<Vec<Option<SetupPieceType>>>, usize)>)
    requires
        pos <= input@.len(),
    ensures
        match dec_setup_rows_list(input@.skip(pos as int)) {
            Some((v, c)) => 0 <= c && pos + c <= input@.len() && r is Some && setup_rows_view(&r->Some_0.0)
                == v && r->Some_0.1 == pos + c,
            None => r is None,
        },
{
    let ghost s = input@.skip(pos as int);
    proof {
        assert(vstd::std_specs::vec::spec_vec_len(input) == input@.len());
    }
    let ghost g = dec_setup_rows_f();
    let n = match decode_usize(input, pos) {
        Some((n, p1)) => (n, p1),
        None => {
            return None;
        },
    };
    let (count, start) = n;
    proof {
        assert(input@.skip(start as int) =~= s.skip(start - pos));
    }
    let mut acc: Vec<Vec<Option<SetupPieceType>>> = Vec::new();
    let mut cur: usize = start;
    let mut k: usize = 0;
    while k < count
        invariant
            s == input@.skip(pos as int),
            g == dec_setup_rows_f(),
            input@.len() <= usize::MAX,
            pos <= start <= cur <= input@.len(),
            k <= count,
            acc@.len() == k,
            dec_usize(s) == Some((count, (start - pos) as int)),
            match dec_items(g, input@.skip(cur as int), (count - k) as nat) {
                Some((vs, c2)) => dec_items(g, s.skip(start - pos), count as nat) == Some(
                    (setup_rows_view(&acc) + vs, (cur - start) + c2),
                ),
                None => dec_items(g, s.skip(start - pos), count as nat) is None,
            },
        decreases count - k,
    {
        let ghost accp = setup_rows_view(&acc);
        let ghost curp = cur;
        match decode_setup_cell_list(input, cur) {
            None => {
                return None;
            },
            Some((m, newpos)) => {
                let ghost mv = m@;
                acc.push(m);
                cur = newpos;
                proof {
                    let c = (newpos - curp) as int;
                    assert(g(input@.skip(curp as int)) == dec_setup_cell_list(input@.skip(curp as int)));
                    assert(dec_setup_cell_list(input@.skip(curp as int)) == Some((mv, c)));
                    assert(input@.skip(curp as int).skip(c) =~= input@.skip(newpos as int));
                    assert(dec_items(g, input@.skip(curp as int), (count - k) as nat) == (
                    match dec_items(g, input@.skip(newpos as int), (count - k - 1) as nat) {
                        Some((vs, c2)) => Some((seq![mv] + vs, c + c2)),
                        None => None::<(Seq<Seq<Option<SetupPieceType>>>, int)>,
                    }));
                    assert(setup_rows_view(&acc) =~= accp.push(mv));
                    if dec_items(g, input@.skip(cur as int), (count - k - 1) as nat) is Some {
                        let (vs, c2) = dec_items(
                            g,
                            input@.skip(cur as int),
                            (count - k - 1) as nat,
                        )->Some_0;
                        assert(accp + (seq![mv] + vs) =~= setup_rows_view(&acc) + vs);
                    }
                }
            },
        }
        k = k + 1;
    }
    proof {
        assert(dec_items(g, input@.skip(cur as int), 0) == Some((Seq::<Seq<Option<SetupPieceType>>>::empty(), 0int)));
        assert(setup_rows_view(&acc) + Seq::<Seq<Option<SetupPieceType>>>::empty() =~= setup_rows_view(&acc));
        assert(dec_items(g, s.skip(start - pos), count as nat) == Some(
            (setup_rows_view(&acc), (cur - start) as int),
        ));
    }
    Some((acc, cur))
}

pub proof fn lemma_setup_rows_list_round_trip(s: Seq<Seq<Option<SetupPieceType>>>, rest: Seq<u8>)
    requires
        s.len() <= usize::MAX,
        forall|i: int| 0 <= i < s.len() ==> (#[trigger] s[i]).len() <= usize::MAX,
    ensures
        dec_setup_rows_list(enc_setup_rows_list(s) + rest) == Some((s, enc_setup_rows_list(s).len() as int)),
{
    assert forall|j: int, r2: Seq<u8>|
        0 <= j < s.len() implies #[trigger] dec_setup_rows_f()(enc_setup_rows_f()(s[j]) + r2) == Some(
        (s[j], enc_setup_rows_f()(s[j]).len() as int),
    ) by {
        lemma_setup_cell_list_round_trip(s[j], r2);
    }
    lemma_list_round_trip(enc_setup_rows_f(), dec_setup_rows_f(), s, rest);
}


pub open spec fn enc_bytes(s: Seq<u8>) -> Seq<u8> {
    enc_le(s.len(), 8) + s
}

pub open spec fn dec_bytes(s: Seq<u8>) -> Option<(Seq<u8>, int)> {
    match dec_usize(s) {
        Some((n, c1)) => if s.len() >= c1 + n {
            Some((s.subrange(c1, c1 + n), c1 + n))
        } else {
            None
        },
        None => None,
    }
}

/// Append a byte string.
pub fn encode_bytes(v: &Vec<u8>, out: &mut Vec<u8>)
    ensures
        final(out)@ == old(out)@ + enc_bytes(v@),
{
    let ghost out0 = out@;
    encode_usize(v.len(), out);
    let mut i: usize = 0;
    while i < v.len()
        invariant
            i <= v@.len(),
            out@ == out0 + enc_le(v@.len(), 8) + v@.take(i as int),
        decreases v@.len() - i,
    {
        out.push(v[i]);
        proof {
            assert(v@.take(i + 1) =~= v@.take(i as int).push(v@[i as int]));
        }
        i = i + 1;
    }
    proof {
        assert(v@.take(v@.len() as int) =~= v@);
        assert(out@ =~= out0 + enc_bytes(v@));
    }
}

/// Read a byte string.
pub fn decode_bytes(input: &Vec<u8>, pos: usize) -> (r: Option<(Vec<u8>, usize)>)
    requires
        pos <= input@.len(),
    ensures
        match dec_bytes(input@.skip(pos as int)) {
            Some((v, c)) => 0 <= c && pos + c <= input@.len() && r is Some && r->Some_0.0@ == v
                && r->Some_0.1 == pos + c,
            None => r is None,
        },
{
    let ghost s = input@.skip(pos as int);
    proof {
        assert(vstd::std_specs::vec::spec_vec_len(input) == input@.len());
    }
    let (count, start) = match decode_usize(input, pos) {
        Some(p) => p,
        None => {
            return None;
        },
    };
    if input.len() - start < count {
        return None;
    }
    let mut acc: Vec<u8> = Vec::new();
    let mut k: usize = 0;
    while k < count
        invariant
            s == input@.skip(pos as int),
            input@.len() <= usize::MAX,
            pos <= start <= input@.len(),
            count <= input@.len() - start,
            k <= count,
            acc@ == s.subrange((start - pos) as int, (start - pos) + k),
        decreases count - k,
    {
        acc.push(input[start + k]);
        proof {
            assert(s.subrange((start - pos) as int, (start - pos) + k + 1) =~= s.subrange(
                (start - pos) as int,
                (start - pos) + k,
            ).push(input@[start + k]));
        }
        k = k + 1;
    }
    Some((acc, start + count))
}

pub proof fn lemma_bytes_round_trip(v: Seq<u8>, rest: Seq<u8>)
    requires
        v.len() <= usize::MAX,
    ensures
        dec_bytes(enc_bytes(v) + rest) == Some((v, enc_bytes(v).len() as int)),
{
    let s = enc_bytes(v) + rest;
    assert(s =~= enc_le(v.len(), 8) + (v + rest));
    assert(pow256(8) == 0x10000000000000000) by {
        reveal_with_fuel(pow256, 9);
    }
    lemma_le_round_trip(v.len(), 8, v + rest);
    lemma_enc_le_len(v.len(), 8);
    assert(s.subrange(8, 8 + v.len() as int) =~= v);
}

pub open spec fn enc_chat(c: crate::play::ChatMessageV) -> Seq<u8> {
    enc_u128(c.id) + enc_bytes(c.message)
}

pub open spec fn dec_chat(s: Seq<u8>) -> Option<(crate::play::ChatMessageV, int)> {
    match dec_u128(s) {
        Some((id, c1)) => match dec_bytes(s.skip(c1)) {
            Some((m, c2)) => Some(
                (crate::play::ChatMessageV { id, message: m }, c1 + c2),
            ),
            None => None,
        },
        None => None,
    }
}

/// Append a chat line.
pub fn encode_chat(c: &crate::play::ChatMessage, out: &mut Vec<u8>)
    ensures
        final(out)@ == old(out)@ + enc_chat(c@),
{
    encode_u128(c.id, out);
    encode_bytes(&c.message, out);
    proof {
        assert(final(out)@ =~= old(out)@ + enc_chat(c@));
    }
}

/// Read a chat line.
pub fn decode_chat(input: &Vec<u8>, pos: usize) -> (r: Option<(crate::play::ChatMessage, usize)>)
    requires
        pos <= input@.len(),
    ensures
        match dec_chat(input@.skip(pos as int)) {
            Some((v, c)) => 0 <= c && pos + c <= input@.len() && r is Some && r->Some_0.0@ == v
                && r->Some_0.1 == pos + c,
            None => r is None,
        },
{
    let ghost s = input@.skip(pos as int);
    proof {
        assert(vstd::std_specs::vec::spec_vec_len(input) == input@.len());
    }
    match decode_u128(input, pos) {
        None => None,
        Some((id, p1)) => {
            proof {
                assert(input@.skip(p1 as int) =~= s.skip(p1 - pos));
            }
            match decode_bytes(input, p1) {
                None => None,
                Some((m, p2)) => Some((crate::play::ChatMessage { id, message: m }, p2)),
            }
        },
    }
}

pub proof fn lemma_chat_round_trip(c: crate::play::ChatMessageV, rest: Seq<u8>)
    requires
        c.message.len() <= usize::MAX,
    ensures
        dec_chat(enc_chat(c) + rest) == Some((c, enc_chat(c).len() as int)),
{
    let s = enc_chat(c) + rest;
    assert(s =~= enc_u128(c.id) + (enc_bytes(c.message) + rest));
    assert(pow256(16) > u128::MAX) by {
        reveal_with_fuel(pow256, 17);
    }
    lemma_le_round_trip(c.id as nat, 16, enc_bytes(c.message) + rest);
    lemma_enc_le_len(c.id as nat, 16);
    assert(s.skip(16) =~= enc_bytes(c.message) + rest);
    lemma_bytes_round_trip(c.message, rest);
}

pub open spec fn enc_stream_id(id: crate::session::StreamId) -> Seq<u8> {
    enc_u64(id.ms) + enc_u64(id.seq)
}

pub open spec fn dec_stream_id(s: Seq<u8>) -> Option<(crate::session::StreamId, int)> {
    match dec_u64(s) {
        Some((ms, c1)) => match dec_u64(s.skip(c1)) {
            Some((sq, c2)) => Some((crate::session::StreamId { ms, seq: sq }, c1 + c2)),
            None => None,
        },
        None => None,
    }
}

/// Append a stream id.
pub fn encode_stream_id(id: crate::session::StreamId, out: &mut Vec<u8>)
    ensures
        final(out)@ == old(out)@ + enc_stream_id(id),
{
    encode_u64(id.ms, out);
    encode_u64(id.seq, out);
    proof {
        assert(final(out)@ =~= old(out)@ + enc_stream_id(id));
    }
}

/// Read a stream id.
pub fn decode_stream_id(input: &Vec<u8>, pos: usize) -> (r: Option<
    (crate::session::StreamId, usize),
>)
    requires
        pos <= input@.len(),
    ensures
        match dec_stream_id(input@.skip(pos as int)) {
            Some((v, c)) => 0 <= c && pos + c <= input@.len() && r == Some((v, (pos + c) as usize)),
            None => r is None,
        },
{
    let ghost s = input@.skip(pos as int);
    proof {
        assert(vstd::std_specs::vec::spec_vec_len(input) == input@.len());
    }
    match decode_u64(input, pos) {
        None => None,
        Some((ms, p1)) => {
            proof {
                assert(input@.skip(p1 as int) =~= s.skip(p1 - pos));
            }
            match decode_u64(input, p1) {
                None => None,
                Some((sq, p2)) => Some((crate::session::StreamId { ms, seq: sq }, p2)),
            }
        },
    }
}

pub proof fn lemma_stream_id_round_trip(id: crate::session::StreamId, rest: Seq<u8>)
    ensures
        dec_stream_id(enc_stream_id(id) + rest) == Some((id, 16int)),
{
    let s = enc_stream_id(id) + rest;
    assert(s =~= enc_u64(id.ms) + (enc_u64(id.seq) + rest));
    assert(pow256(8) == 0x10000000000000000) by {
        reveal_with_fuel(pow256, 9);
    }
    lemma_le_round_trip(id.ms as nat, 8, enc_u64(id.seq) + rest);
    lemma_enc_le_len(id.ms as nat, 8);
    assert(s.skip(8) =~= enc_u64(id.seq) + rest);
    lemma_le_round_trip(id.seq as nat, 8, rest);
    lemma_enc_le_len(id.seq as nat, 8);
}

pub open spec fn enc_opt_stream_id(o: Option<crate::session::StreamId>) -> Seq<u8> {
    match o {
        None => seq![0u8],
        Some(id) => seq![1u8] + enc_stream_id(id),
    }
}

pub open spec fn dec_opt_stream_id(s: Seq<u8>) -> Option<
    (Option<crate::session::StreamId>, int),
> {
    if s.len() < 1 {
        None
    } else if s[0] == 0 {
        Some((None, 1))
    } else if s[0] == 1 {
        match dec_stream_id(s.skip(1)) {
            Some((id, c)) => Some((Some(id), 1 + c)),
            None => None,
        }
    } else {
        None
    }
}

/// Append an optional stream cursor.
pub fn encode_opt_stream_id(o: Option<crate::session::StreamId>, out: &mut Vec<u8>)
    ensures
        final(out)@ == old(out)@ + enc_opt_stream_id(o),
{
    match o {
        None => {
            out.push(0);
        },
        Some(id) => {
            out.push(1);
            encode_stream_id(id, out);
        },
    }
    proof {
        assert(final(out)@ =~= old(out)@ + enc_opt_stream_id(o));
    }
}

/// Read an optional stream cursor.
pub fn decode_opt_stream_id(input: &Vec<u8>, pos: usize) -> (r: Option<
    (Option<crate::session::StreamId>, usize),
>)
    requires
        pos <= input@.len(),
    ensures
        match dec_opt_stream_id(input@.skip(pos as int)) {
            Some((v, c)) => 0 <= c && pos + c <= input@.len() && r == Some((v, (pos + c) as usize)),
            None => r is None,
        },
{
    proof {
        assert(vstd::std_specs::vec::spec_vec_len(input) == input@.len());
    }
    if pos >= input.len() {
        return None;
    }
    let b = input[pos];
    if b == 0 {
        Some((None, pos + 1))
    } else if b == 1 {
        proof {
            assert(input@.skip(pos as int).skip(1) =~= input@.skip(pos + 1));
        }
        match decode_stream_id(input, pos + 1) {
            Some((id, newpos)) => Some((Some(id), newpos)),
            None => None,
        }
    } else {
        None
    }
}

pub proof fn lemma_opt_stream_id_round_trip(o: Option<crate::session::StreamId>, rest: Seq<u8>)
    ensures
        dec_opt_stream_id(enc_opt_stream_id(o) + rest) == Some(
            (o, enc_opt_stream_id(o).len() as int),
        ),
{
    match o {
        None => {
            assert((enc_opt_stream_id(o) + rest)[0] == 0);
        },
        Some(id) => {
            let s = enc_opt_stream_id(o) + rest;
            assert(s[0] == 1);
            assert(s.skip(1) =~= enc_stream_id(id) + rest);
            lemma_stream_id_round_trip(id, rest);
            lemma_enc_le_len(id.ms as nat, 8);
            lemma_enc_le_len(id.seq as nat, 8);
        },
    }
}

pub open spec fn enc_turn(t: crate::board::Turn) -> Seq<u8> {
    enc_u128(t.game_id) + enc_usize(t.piece_idx) + enc_usize(t.move_idx)
}

pub open spec fn dec_turn(s: Seq<u8>) -> Option<(crate::board::Turn, int)> {
    match dec_u128(s) {
        Some((g, c1)) => match dec_usize(s.skip(c1)) {
            Some((pi, c2)) => match dec_usize(s.skip(c1 + c2)) {
                Some((mi, c3)) => Some(
                    (
                        crate::board::Turn { game_id: g, piece_idx: pi, move_idx: mi },
                        c1 + c2 + c3,
                    ),
                ),
                None => None,
            },
            None => None,
        },
        None => None,
    }
}

/// Append a turn request.
pub fn encode_turn(t: &crate::board::Turn, out: &mut Vec<u8>)
    ensures
        final(out)@ == old(out)@ + enc_turn(*t),
{
    encode_u128(t.game_id, out);
    encode_usize(t.piece_idx, out);
    encode_usize(t.move_idx, out);
    proof {
        assert(final(out)@ =~= old(out)@ + enc_turn(*t));
    }
}

/// Read a turn request.
pub fn decode_turn(input: &Vec<u8>, pos: usize) -> (r: Option<(crate::board::Turn, usize)>)
    requires
        pos <= input@.len(),
    ensures
        match dec_turn(input@.skip(pos as int)) {
            Some((v, c)) => 0 <= c && pos + c <= input@.len() && r == Some((v, (pos + c) as usize)),
            None => r is None,
        },
{
    let ghost s = input@.skip(pos as int);
    proof {
        assert(vstd::std_specs::vec::spec_vec_len(input) == input@.len());
    }
    match decode_u128(input, pos) {
        None => None,
        Some((g, p1)) => {
            proof {
                assert(input@.skip(p1 as int) =~= s.skip(p1 - pos));
            }
            match decode_usize(input, p1) {
                None => None,
                Some((pi, p2)) => {
                    proof {
                        assert(input@.skip(p2 as int) =~= s.skip(p2 - pos));
                    }
                    match decode_usize(input, p2) {
                        None => None,
                        Some((mi, p3)) => Some(
                            (
                                crate::board::Turn { game_id: g, piece_idx: pi, move_idx: mi },
                                p3,
                            ),
                        ),
                    }
                },
            }
        },
    }
}

pub proof fn lemma_turn_round_trip(t: crate::board::Turn, rest: Seq<u8>)
    ensures
        dec_turn(enc_turn(t) + rest) == Some((t, enc_turn(t).len() as int)),
{
    let s = enc_turn(t) + rest;
    assert(s =~= enc_u128(t.game_id) + (enc_usize(t.piece_idx) + (enc_usize(t.move_idx) + rest)));
    assert(pow256(16) > u128::MAX) by {
        reveal_with_fuel(pow256, 17);
    }
    assert(pow256(8) == 0x10000000000000000) by {
        reveal_with_fuel(pow256, 9);
    }
    lemma_le_round_trip(t.game_id as nat, 16, enc_usize(t.piece_idx) + (enc_usize(t.move_idx) + rest));
    lemma_enc_le_len(t.game_id as nat, 16);
    assert(s.skip(16) =~= enc_usize(t.piece_idx) + (enc_usize(t.move_idx) + rest));
    lemma_le_round_trip(t.piece_idx as nat, 8, enc_usize(t.move_idx) + rest);
    lemma_enc_le_len(t.piece_idx as nat, 8);
    assert(s.skip(24) =~= enc_usize(t.move_idx) + rest);
    lemma_le_round_trip(t.move_idx as nat, 8, rest);
    lemma_enc_le_len(t.move_idx as nat, 8);
}


pub open spec fn chats_view(v: &Vec<crate::play::ChatMessage>) -> Seq<crate::play::ChatMessageV> {
    Seq::new(v@.len(), |i: int| v@[i]@)
}


pub open spec fn enc_chat_f() -> spec_fn(crate::play::ChatMessageV) -> Seq<u8> {
    |m: crate::play::ChatMessageV| enc_chat(m)
}

pub open spec fn dec_chat_f() -> spec_fn(Seq<u8>) -> Option<(crate::play::ChatMessageV, int)> {
    |s2: Seq<u8>| dec_chat(s2)
}

pub open spec fn enc_chat_list(s: Seq<crate::play::ChatMessageV>) -> Seq<u8> {
    enc_list(enc_chat_f(), s)
}

pub open spec fn dec_chat_list(s: Seq<u8>) -> Option<(Seq<crate::play::ChatMessageV>, int)> {
    dec_list(dec_chat_f(), s)
}

/// Append a list of chat lines.
pub fn encode_chat_list(v: &Vec<crate::play::ChatMessage>, out: &mut Vec<u8>)
    ensures
        final(out)@ == old(out)@ + enc_chat_list(chats_view(v)),
{
    let ghost out0 = out@;
    let ghost f = enc_chat_f();
    let ghost vv = chats_view(v);
    encode_usize(v.len(), out);
    let mut i: usize = 0;
    while i < v.len()
        invariant
            vv == chats_view(v),
            v@.len() == vv.len(),
            i <= vv.len(),
            out@ + enc_items(f, vv, i as int) == out0 + enc_le(vv.len(), 8) + enc_items(f, vv, 0),
            f == enc_chat_f(),
        decreases vv.len() - i,
    {
        let ghost outp = out@;
        encode_chat(&v[i], out);
        proof {
            assert(v@[i as int]@ == vv[i as int]);
            assert(enc_items(f, vv, i as int) == f(vv[i as int]) + enc_items(f, vv, i + 1));
            assert(outp + (f(vv[i as int]) + enc_items(f, vv, i + 1)) =~= (outp + f(vv[i as int]))
                + enc_items(f, vv, i + 1));
        }
        i = i + 1;
    }
    proof {
        assert(out@ + enc_items(f, vv, vv.len() as int) =~= out@);
        assert(out0 + enc_le(vv.len(), 8) + enc_items(f, vv, 0) =~= out0 + enc_chat_list(vv));
    }
}

/// Read a list of chat lines.
pub fn decode_chat_list(input: &Vec<u8>, pos: usize) -> (r: Option<(Vec<crate::play::ChatMessage>, usize)>)
    requires
        pos <= input@.len(),
    ensures
        match dec_chat_list(input@.skip(pos as int)) {
            Some((v, c)) => 0 <= c && pos + c <= input@.len() && r is Some && chats_view(&r->Some_0.0)
                == v && r->Some_0.1 == pos + c,
            None => r is None,
        },
{
    let ghost s = input@.skip(pos as int);
    proof {
        assert(vstd::std_specs::vec::spec_vec_len(input) == input@.len());
    }
    let ghost g = dec_chat_f();
    let n = match decode_usize(input, pos) {
        Some((n, p1)) => (n, p1),
        None => {
            return None;
        },
    };
    let (count, start) = n;
    proof {
        assert(input@.skip(start as int) =~= s.skip(start - pos));
    }
    let mut acc: Vec<crate::play::ChatMessage> = Vec::new();
    let mut cur: usize = start;
    let mut k: usize = 0;
    while k < count
        invariant
            s == input@.skip(pos as int),
            g == dec_chat_f(),
            input@.len() <= usize::MAX,
            pos <= start <= cur <= input@.len(),
            k <= count,
            acc@.len() == k,
            dec_usize(s) == Some((count, (start - pos) as int)),
            match dec_items(g, input@.skip(cur as int), (count - k) as nat) {
                Some((vs, c2)) => dec_items(g, s.skip(start - pos), count as nat) == Some(
                    (chats_view(&acc) + vs, (cur - start) + c2),
                ),
                None => dec_items(g, s.skip(start - pos), count as nat) is None,
            },
        decreases count - k,
    {
        let ghost accp = chats_view(&acc);
        let ghost curp = cur;
        match decode_chat(input, cur) {
            None => {
                return None;
            },
            Some((m, newpos)) => {
                let ghost mv = m@;
                acc.push(m);
                cur = newpos;
                proof {
                    let c = (newpos - curp) as int;
                    assert(g(input@.skip(curp as int)) == dec_chat(input@.skip(curp as int)));
                    assert(dec_chat(input@.skip(curp as int)) == Some((mv, c)));
                    assert(input@.skip(curp as int).skip(c) =~= input@.skip(newpos as int));
                    assert(dec_items(g, input@.skip(curp as int), (count - k) as nat) == (
                    match dec_items(g, input@.skip(newpos as int), (count - k - 1) as nat) {
                        Some((vs, c2)) => Some((seq![mv] + vs, c + c2)),
                        None => None::<(Seq<crate::play::ChatMessageV>, int)>,
                    }));
                    assert(chats_view(&acc) =~= accp.push(mv));
                    if dec_items(g, input@.skip(cur as int), (count - k - 1) as nat) is Some {
                        let (vs, c2) = dec_items(
                            g,
                            input@.skip(cur as int),
                            (count - k - 1) as nat,
                        )->Some_0;
                        assert(accp + (seq![mv] + vs) =~= chats_view(&acc) + vs);
                    }
                }
            },
        }
        k = k + 1;
    }
    proof {
        assert(dec_items(g, input@.skip(cur as int), 0) == Some((Seq::<crate::play::ChatMessageV>::empty(), 0int)));
        assert(chats_view(&acc) + Seq::<crate::play::ChatMessageV>::empty() =~= chats_view(&acc));
        assert(dec_items(g, s.skip(start - pos), count as nat) == Some(
            (chats_view(&acc), (cur - start) as int),
        ));
    }
    Some((acc, cur))
}

pub proof fn lemma_chat_list_round_trip(s: Seq<crate::play::ChatMessageV>, rest: Seq<u8>)
    requires
        s.len() <= usize::MAX,
        forall|i: int| 0 <= i < s.len() ==> (#[trigger] s[i]).message.len() <= usize::MAX,
    ensures
        dec_chat_list(enc_chat_list(s) + rest) == Some((s, enc_chat_list(s).len() as int)),
{
    assert forall|j: int, r2: Seq<u8>|
        0 <= j < s.len() implies #[trigger] dec_chat_f()(enc_chat_f()(s[j]) + r2) == Some(
        (s[j], enc_chat_f()(s[j]).len() as int),
    ) by {
        lemma_chat_round_trip(s[j], r2);
    }
    lemma_list_round_trip(enc_chat_f(), dec_chat_f(), s, rest);
}

pub open spec fn enc_kings(k: crate::board::Kings) -> Seq<u8> {
    enc_vec2(k.white) + enc_vec2(k.black)
}

pub open spec fn dec_kings(s: Seq<u8>) -> Option<(crate::board::Kings, int)> {
    if s.len() < 4 {
        None
    } else {
        match dec_vec2(s) {
            Some((w, c1)) => match dec_vec2(s.skip(c1)) {
                Some((b, c2)) => Some((crate::board::Kings { white: w, black: b }, c1 + c2)),
                None => None,
            },
            None => None,
        }
    }
}

/// Append the king cache.
pub fn encode_kings(k: crate::board::Kings, out: &mut Vec<u8>)
    ensures
        final(out)@ == old(out)@ + enc_kings(k),
{
    encode_vec2(k.white, out);
    encode_vec2(k.black, out);
    proof {
        assert(final(out)@ =~= old(out)@ + enc_kings(k));
    }
}

/// Read the king cache.
pub fn decode_kings(input: &Vec<u8>, pos: usize) -> (r: Option<(crate::board::Kings, usize)>)
    requires
        pos <= input@.len(),
    ensures
        match dec_kings(input@.skip(pos as int)) {
            Some((v, c)) => 0 <= c && pos + c <= input@.len() && r == Some((v, (pos + c) as usize)),
            None => r is None,
        },
{
    let ghost s = input@.skip(pos as int);
    proof {
        assert(vstd::std_specs::vec::spec_vec_len(input) == input@.len());
    }
    if input.len() - pos < 4 {
        return None;
    }
    match decode_vec2(input, pos) {
        None => None,
        Some((w, p1)) => {
            proof {
                assert(input@.skip(p1 as int) =~= s.skip(p1 - pos));
            }
            match decode_vec2(input, p1) {
                None => None,
                Some((b, p2)) => Some((crate::board::Kings { white: w, black: b }, p2)),
            }
        },
    }
}

pub proof fn lemma_kings_round_trip(k: crate::board::Kings, rest: Seq<u8>)
    ensures
        dec_kings(enc_kings(k) + rest) == Some((k, 4int)),
{
    let s = enc_kings(k) + rest;
    assert(s =~= enc_vec2(k.white) + (enc_vec2(k.black) + rest));
    lemma_vec2_round_trip(k.white, enc_vec2(k.black) + rest);
    assert(s.skip(2) =~= enc_vec2(k.black) + rest);
    lemma_vec2_round_trip(k.black, rest);
}

pub open spec fn enc_board(b: BoardV) -> Seq<u8> {
    enc_u128(b.id) + enc_player(b.turn) + enc_u128(b.white_player) + enc_u128(b.black_player)
        + enc_tile_rows_list(b.grid) + enc_kings(b.kings) + enc_vec2_list(b.move_pieces)
        + enc_move_rows_list(b.moves)
}

pub open spec fn dec_board(s: Seq<u8>) -> Option<(BoardV, int)> {
    match dec_u128(s) {
        Some((id, c1)) => match dec_player(s.skip(c1)) {
            Some((turn, c2)) => match dec_u128(s.skip(c1 + c2)) {
                Some((w, c3)) => match dec_u128(s.skip(c1 + c2 + c3)) {
                    Some((bl, c4)) => match dec_tile_rows_list(s.skip(c1 + c2 + c3 + c4)) {
                        Some((grid, c5)) => match dec_kings(s.skip(c1 + c2 + c3 + c4 + c5)) {
                            Some((kings, c6)) => match dec_vec2_list(
                                s.skip(c1 + c2 + c3 + c4 + c5 + c6),
                            ) {
                                Some((mp, c7)) => match dec_move_rows_list(
                                    s.skip(c1 + c2 + c3 + c4 + c5 + c6 + c7),
                                ) {
                                    Some((mv, c8)) => {
                                        let bv = BoardV {
                                            id,
                                            turn,
                                            white_player: w,
                                            black_player: bl,
                                            grid,
                                            kings,
                                            move_pieces: mp,
                                            moves: mv,
                                        };
                                        if bv.wf() && bv.moves_ok() {
                                            Some((bv, c1 + c2 + c3 + c4 + c5 + c6 + c7 + c8))
                                        } else {
                                            None
                                        }
                                    },
                                    None => None,
                                },
                                None => None,
                            },
                            None => None,
                        },
                        None => None,
                    },
                    None => None,
                },
                None => None,
            },
            None => None,
        },
        None => None,
    }
}

/// Whether one move names only on-board squares and no turn end.
pub fn check_move_ok(m: &Move) -> (r: bool)
    ensures
        r == crate::board::move_ok(*m),
{
    if !m.from.is_inside_board() || !m.to.is_inside_board() {
        return false;
    }
    match m.move_type {
        MoveType::TurnEnd => false,
        MoveType::Castle { from, to } => from.is_inside_board() && to.is_inside_board(),
        _ => true,
    }
}

/// Whether every cached move can be applied to the board.
pub fn check_moves_ok(moves: &Vec<Vec<Move>>) -> (r: bool)
    ensures
        r == (forall|i: int, j: int|
            0 <= i < move_rows_view(moves).len() && 0 <= j < move_rows_view(moves)[i].len()
                ==> crate::board::move_ok(#[trigger] move_rows_view(moves)[i][j])),
{
    let mut i: usize = 0;
    while i < moves.len()
        invariant
            i <= moves@.len(),
            forall|a: int, b: int|
                0 <= a < i && 0 <= b < move_rows_view(moves)[a].len() ==> crate::board::move_ok(
                    #[trigger] move_rows_view(moves)[a][b],
                ),
        decreases moves@.len() - i,
    {
        let row_len = moves[i].len();
        let mut j: usize = 0;
        while j < row_len
            invariant
                i < moves@.len(),
                row_len == moves@[i as int]@.len(),
                j <= row_len,
                forall|a: int, b: int|
                    0 <= a < i && 0 <= b < move_rows_view(moves)[a].len() ==> crate::board::move_ok(
                        #[trigger] move_rows_view(moves)[a][b],
                    ),
                forall|b: int|
                    0 <= b < j ==> crate::board::move_ok(
                        #[trigger] move_rows_view(moves)[i as int][b],
                    ),
            decreases row_len - j,
        {
            proof {
                assert(move_rows_view(moves)[i as int][j as int] == moves@[i as int]@[j as int]);
            }
            if !check_move_ok(&moves[i][j]) {
                return false;
            }
            j = j + 1;
        }
        i = i + 1;
    }
    true
}

/// Whether the grid is eight rows of eight.
pub fn check_grid(grid: &Vec<Vec<Tile>>) -> (r: bool)
    ensures
        r == crate::board::grid_wf(tile_rows_view(grid)),
{
    if grid.len() != 8 {
        return false;
    }
    let mut i: usize = 0;
    while i < 8
        invariant
            grid@.len() == 8,
            i <= 8,
            forall|a: int| 0 <= a < i ==> (#[trigger] tile_rows_view(grid)[a]).len() == 8,
        decreases 8 - i,
    {
        if grid[i].len() != 8 {
            proof {
                assert(tile_rows_view(grid)[i as int].len() != 8);
            }
            return false;
        }
        proof {
            assert(tile_rows_view(grid)[i as int].len() == 8);
        }
        i = i + 1;
    }
    true
}

/// Append a board.
pub fn encode_board(b: &crate::board::Board, out: &mut Vec<u8>)
    ensures
        final(out)@ == old(out)@ + enc_board(b@),
{
    encode_u128(b.id, out);
    encode_player(b.turn, out);
    encode_u128(b.white_player, out);
    encode_u128(b.black_player, out);
    proof {
        assert(tile_rows_view(&b.board) =~= b@.grid);
    }
    encode_tile_rows_list(&b.board, out);
    encode_kings(b.kings, out);
    encode_vec2_list(&b.move_pieces, out);
    proof {
        assert(move_rows_view(&b.moves) =~= b@.moves);
    }
    encode_move_rows_list(&b.moves, out);
    proof {
        assert(final(out)@ =~= old(out)@ + enc_board(b@));
    }
}

/// Read a board back. Only a board whose grid is eight-by-eight and whose
/// cached moves are all applyable is accepted.
#[verifier::rlimit(100)]
pub fn decode_board(input: &Vec<u8>, pos: usize) -> (r: Option<(crate::board::Board, usize)>)
    requires
        pos <= input@.len(),
    ensures
        match dec_board(input@.skip(pos as int)) {
            Some((v, c)) => 0 <= c && pos + c <= input@.len() && r is Some && r->Some_0.0@ == v
                && r->Some_0.1 == pos + c && v.wf() && v.moves_ok(),
            None => r is None,
        },
{
    let ghost s = input@.skip(pos as int);
    proof {
        assert(vstd::std_specs::vec::spec_vec_len(input) == input@.len());
    }
    let (id, p1) = match decode_u128(input, pos) {
        Some(x) => x,
        None => {
            return None;
        },
    };
    proof {
        assert(input@.skip(p1 as int) =~= s.skip(p1 - pos));
    }
    let (turn, p2) = match decode_player(input, p1) {
        Some(x) => x,
        None => {
            return None;
        },
    };
    proof {
        assert(input@.skip(p2 as int) =~= s.skip(p2 - pos));
    }
    let (white_player, p3) = match decode_u128(input, p2) {
        Some(x) => x,
        None => {
            return None;
        },
    };
    proof {
        assert(input@.skip(p3 as int) =~= s.skip(p3 - pos));
    }
    let (black_player, p4) = match decode_u128(input, p3) {
        Some(x) => x,
        None => {
            return None;
        },
    };
    proof {
        assert(input@.skip(p4 as int) =~= s.skip(p4 - pos));
    }
    let (grid, p5) = match decode_tile_rows_list(input, p4) {
        Some(x) => x,
        None => {
            return None;
        },
    };
    proof {
        assert(input@.skip(p5 as int) =~= s.skip(p5 - pos));
    }
    let (kings, p6) = match decode_kings(input, p5) {
        Some(x) => x,
        None => {
            return None;
        },
    };
    proof {
        assert(input@.skip(p6 as int) =~= s.skip(p6 - pos));
    }
    let (move_pieces, p7) = match decode_vec2_list(input, p6) {
        Some(x) => x,
        None => {
            return None;
        },
    };
    proof {
        assert(input@.skip(p7 as int) =~= s.skip(p7 - pos));
    }
    let (moves, p8) = match decode_move_rows_list(input, p7) {
        Some(x) => x,
        None => {
            return None;
        },
    };
    let grid_ok = check_grid(&grid);
    let moves_fine = check_moves_ok(&moves);
    let board = crate::board::Board {
        id,
        turn,
        white_player,
        black_player,
        board: grid,
        kings,
        move_pieces,
        moves,
    };
    proof {
        assert(board@.grid =~= tile_rows_view(&board.board));
        assert(board@.moves =~= move_rows_view(&board.moves));
    }
    if grid_ok && moves_fine {
        proof {
            assert(board@.wf());
            assert(board@.moves_ok());
        }
        Some((board, p8))
    } else {
        None
    }
}

/// Serialization round trip for a board: decoding an encoded well-formed
/// board, whatever follows it, returns that board exactly.
#[verifier::rlimit(100)]
pub proof fn lemma_board_round_trip(b: BoardV, rest: Seq<u8>)
    requires
        b.wf(),
        b.moves_ok(),
        b.move_pieces.len() <= usize::MAX,
        b.moves.len() <= usize::MAX,
        forall|i: int| 0 <= i < b.moves.len() ==> (#[trigger] b.moves[i]).len() <= usize::MAX,
    ensures
        dec_board(enc_board(b) + rest) == Some((b, enc_board(b).len() as int)),
{
    let r8 = rest;
    let r7 = enc_move_rows_list(b.moves) + r8;
    let r6 = enc_vec2_list(b.move_pieces) + r7;
    let r5 = enc_kings(b.kings) + r6;
    let r4 = enc_tile_rows_list(b.grid) + r5;
    let r3 = enc_u128(b.black_player) + r4;
    let r2 = enc_u128(b.white_player) + r3;
    let r1 = enc_player(b.turn) + r2;
    let s = enc_board(b) + rest;
    assert(s =~= enc_u128(b.id) + r1);
    assert(pow256(16) > u128::MAX) by {
        reveal_with_fuel(pow256, 17);
    }
    lemma_le_round_trip(b.id as nat, 16, r1);
    lemma_enc_le_len(b.id as nat, 16);
    assert(s.skip(16) =~= r1);
    lemma_player_round_trip(b.turn, r2);
    assert(s.skip(17) =~= r2);
    lemma_le_round_trip(b.white_player as nat, 16, r3);
    lemma_enc_le_len(b.white_player as nat, 16);
    assert(s.skip(33) =~= r3);
    lemma_le_round_trip(b.black_player as nat, 16, r4);
    lemma_enc_le_len(b.black_player as nat, 16);
    assert(s.skip(49) =~= r4);
    lemma_tile_rows_list_round_trip(b.grid, r5);
    let c5 = enc_tile_rows_list(b.grid).len() as int;
    assert(s.skip(49 + c5) =~= r5);
    lemma_kings_round_trip(b.kings, r6);
    assert(s.skip(49 + c5 + 4) =~= r6);
    lemma_vec2_list_round_trip(b.move_pieces, r7);
    let c7 = enc_vec2_list(b.move_pieces).len() as int;
    assert(s.skip(49 + c5 + 4 + c7) =~= r7);
    lemma_move_rows_list_round_trip(b.moves, r8);
}

pub open spec fn enc_setup(sv: Seq<Seq<Option<SetupPieceType>>>) -> Seq<u8> {
    enc_setup_rows_list(sv)
}

pub open spec fn dec_setup(s: Seq<u8>) -> Option<(Seq<Seq<Option<SetupPieceType>>>, int)> {
    match dec_setup_rows_list(s) {
        Some((sv, c)) => if crate::setup::setup_wf(sv) {
            Some((sv, c))
        } else {
            None
        },
        None => None,
    }
}

/// Whether decoded rows form a two-by-eight setup.
pub fn check_setup_rows(rows: &Vec<Vec<Option<SetupPieceType>>>) -> (r: bool)
    ensures
        r == crate::setup::setup_wf(setup_rows_view(rows)),
{
    if rows.len() != 2 {
        return false;
    }
    if rows[0].len() != 8 {
        proof {
            assert(setup_rows_view(rows)[0].len() != 8);
        }
        return false;
    }
    if rows[1].len() != 8 {
        proof {
            assert(setup_rows_view(rows)[1].len() != 8);
        }
        return false;
    }
    proof {
        assert(forall|y: int| 0 <= y < 2 ==> (#[trigger] setup_rows_view(rows)[y]).len() == 8);
    }
    true
}

/// Append a board setup.
pub fn encode_setup(v: &crate::setup::BoardSetup, out: &mut Vec<u8>)
    ensures
        final(out)@ == old(out)@ + enc_setup(v@),
{
    proof {
        assert(setup_rows_view(&v.0) =~= v@);
    }
    encode_setup_rows_list(&v.0, out);
}

/// Read a board setup back; only the two-by-eight shape is accepted.
pub fn decode_setup(input: &Vec<u8>, pos: usize) -> (r: Option<(crate::setup::BoardSetup, usize)>)
    requires
        pos <= input@.len(),
    ensures
        match dec_setup(input@.skip(pos as int)) {
            Some((v, c)) => 0 <= c && pos + c <= input@.len() && r is Some && r->Some_0.0@ == v
                && r->Some_0.1 == pos + c && crate::setup::setup_wf(v),
            None => r is None,
        },
{
    match decode_setup_rows_list(input, pos) {
        None => None,
        Some((rows, newpos)) => {
            if check_setup_rows(&rows) {
                let su = crate::setup::BoardSetup(rows);
                proof {
                    assert(su@ =~= setup_rows_view(&su.0));
                }
                Some((su, newpos))
            } else {
                None
            }
        },
    }
}

/// Serialization round trip for a well-formed board setup.
pub proof fn lemma_setup_round_trip(sv: Seq<Seq<Option<SetupPieceType>>>, rest: Seq<u8>)
    requires
        crate::setup::setup_wf(sv),
    ensures
        dec_setup(enc_setup(sv) + rest) == Some((sv, enc_setup(sv).len() as int)),
{
    lemma_setup_rows_list_round_trip(sv, rest);
}

pub open spec fn enc_turn_start(t: crate::play::TurnStartV) -> Seq<u8> {
    enc_player(t.turn) + enc_vec2_list(t.move_pieces) + enc_move_rows_list(t.moves)
}

pub open spec fn dec_turn_start(s: Seq<u8>) -> Option<(crate::play::TurnStartV, int)> {
    match dec_player(s) {
        Some((turn, c1)) => match dec_vec2_list(s.skip(c1)) {
            Some((mp, c2)) => match dec_move_rows_list(s.skip(c1 + c2)) {
                Some((mv, c3)) => Some(
                    (
                        crate::play::TurnStartV { turn, move_pieces: mp, moves: mv },
                        c1 + c2 + c3,
                    ),
                ),
                None => None,
            },
            None => None,
        },
        None => None,
    }
}

/// Append a turn start.
pub fn encode_turn_start(t: &crate::play::TurnStart, out: &mut Vec<u8>)
    ensures
        final(out)@ == old(out)@ + enc_turn_start(t@),
{
    encode_player(t.turn, out);
    encode_vec2_list(&t.move_pieces, out);
    proof {
        assert(move_rows_view(&t.moves) =~= t@.moves);
    }
    encode_move_rows_list(&t.moves, out);
    proof {
        assert(final(out)@ =~= old(out)@ + enc_turn_start(t@));
    }
}

/// Read a turn start.
pub fn decode_turn_start(input: &Vec<u8>, pos: usize) -> (r: Option<
    (crate::play::TurnStart, usize),
>)
    requires
        pos <= input@.len(),
    ensures
        match dec_turn_start(input@.skip(pos as int)) {
            Some((v, c)) => 0 <= c && pos + c <= input@.len() && r is Some && r->Some_0.0@ == v
                && r->Some_0.1 == pos + c,
            None => r is None,
        },
{
    let ghost s = input@.skip(pos as int);
    proof {
        assert(vstd::std_specs::vec::spec_vec_len(input) == input@.len());
    }
    match decode_player(input, pos) {
        None => None,
        Some((turn, p1)) => {
            proof {
                assert(input@.skip(p1 as int) =~= s.skip(p1 - pos));
            }
            match decode_vec2_list(input, p1) {
                None => None,
                Some((mp, p2)) => {
                    proof {
                        assert(input@.skip(p2 as int) =~= s.skip(p2 - pos));
                    }
                    match decode_move_rows_list(input, p2) {
                        None => None,
                        Some((mv, p3)) => {
                            let ts = crate::play::TurnStart {
                                turn,
                                move_pieces: mp,
                                moves: mv,
                            };
                            proof {
                                assert(ts@.moves =~= move_rows_view(&ts.moves));
                            }
                            Some((ts, p3))
                        },
                    }
                },
            }
        },
    }
}

pub proof fn lemma_turn_start_round_trip(t: crate::play::TurnStartV, rest: Seq<u8>)
    requires
        t.move_pieces.len() <= usize::MAX,
        t.moves.len() <= usize::MAX,
        forall|i: int| 0 <= i < t.moves.len() ==> (#[trigger] t.moves[i]).len() <= usize::MAX,
    ensures
        dec_turn_start(enc_turn_start(t) + rest) == Some((t, enc_turn_start(t).len() as int)),
{
    let r3 = rest;
    let r2 = enc_move_rows_list(t.moves) + r3;
    let r1 = enc_vec2_list(t.move_pieces) + r2;
    let s = enc_turn_start(t) + rest;
    assert(s =~= enc_player(t.turn) + r1);
    lemma_player_round_trip(t.turn, r1);
    assert(s.skip(1) =~= r1);
    lemma_vec2_list_round_trip(t.move_pieces, r2);
    let c2 = enc_vec2_list(t.move_pieces).len() as int;
    assert(s.skip(1 + c2) =~= r2);
    lemma_move_rows_list_round_trip(t.moves, r3);
}

pub open spec fn enc_game_start(g: crate::setup::GameStartV) -> Seq<u8> {
    enc_u128(g.white_id) + enc_setup(g.white_setup) + enc_u128(g.black_id) + enc_setup(
        g.black_setup,
    ) + enc_u128(g.game_id)
}

pub open spec fn dec_game_start(s: Seq<u8>) -> Option<(crate::setup::GameStartV, int)> {
    match dec_u128(s) {
        Some((wid, c1)) => match dec_setup(s.skip(c1)) {
            Some((ws, c2)) => match dec_u128(s.skip(c1 + c2)) {
                Some((bid, c3)) => match dec_setup(s.skip(c1 + c2 + c3)) {
                    Some((bs, c4)) => match dec_u128(s.skip(c1 + c2 + c3 + c4)) {
                        Some((gid, c5)) => Some(
                            (
                                crate::setup::GameStartV {
                                    white_id: wid,
                                    white_setup: ws,
                                    black_id: bid,
                                    black_setup: bs,
                                    game_id: gid,
                                },
                                c1 + c2 + c3 + c4 + c5,
                            ),
                        ),
                        None => None,
                    },
                    None => None,
                },
                None => None,
            },
            None => None,
        },
        None => None,
    }
}

/// Append a game-start payload.
pub fn encode_game_start(g: &crate::setup::GameStart, out: &mut Vec<u8>)
    ensures
        final(out)@ == old(out)@ + enc_game_start(g@),
{
    encode_u128(g.white.id, out);
    encode_setup(&g.white.setup, out);
    encode_u128(g.black.id, out);
    encode_setup(&g.black.setup, out);
    encode_u128(g.game_id, out);
    proof {
        assert(final(out)@ =~= old(out)@ + enc_game_start(g@));
    }
}

/// Read a game-start payload; its setups must be two-by-eight.
pub fn decode_game_start(input: &Vec<u8>, pos: usize) -> (r: Option<
    (crate::setup::GameStart, usize),
>)
    requires
        pos <= input@.len(),
    ensures
        match dec_game_start(input@.skip(pos as int)) {
            Some((v, c)) => 0 <= c && pos + c <= input@.len() && r is Some && r->Some_0.0@ == v
                && r->Some_0.1 == pos + c && crate::setup::setup_wf(v.white_setup)
                && crate::setup::setup_wf(v.black_setup),
            None => r is None,
        },
{
    let ghost s = input@.skip(pos as int);
    proof {
        assert(vstd::std_specs::vec::spec_vec_len(input) == input@.len());
    }
    let (wid, p1) = match decode_u128(input, pos) {
        Some(x) => x,
        None => {
            return None;
        },
    };
    proof {
        assert(input@.skip(p1 as int) =~= s.skip(p1 - pos));
    }
    let (ws, p2) = match decode_setup(input, p1) {
        Some(x) => x,
        None => {
            return None;
        },
    };
    proof {
        assert(input@.skip(p2 as int) =~= s.skip(p2 - pos));
    }
    let (bid, p3) = match decode_u128(input, p2) {
        Some(x) => x,
        None => {
            return None;
        },
    };
    proof {
        assert(input@.skip(p3 as int) =~= s.skip(p3 - pos));
    }
    let (bs, p4) = match decode_setup(input, p3) {
        Some(x) => x,
        None => {
            return None;
        },
    };
    proof {
        assert(input@.skip(p4 as int) =~= s.skip(p4 - pos));
    }
    let (gid, p5) = match decode_u128(input, p4) {
        Some(x) => x,
        None => {
            return None;
        },
    };
    Some(
        (
            crate::setup::GameStart {
                white: crate::setup::GameStartPlayer { id: wid, setup: ws },
                black: crate::setup::GameStartPlayer { id: bid, setup: bs },
                game_id: gid,
            },
            p5,
        ),
    )
}

pub proof fn lemma_game_start_round_trip(g: crate::setup::GameStartV, rest: Seq<u8>)
    requires
        crate::setup::setup_wf(g.white_setup),
        crate::setup::setup_wf(g.black_setup),
    ensures
        dec_game_start(enc_game_start(g) + rest) == Some(
            (g, enc_game_start(g).len() as int),
        ),
{
    let r5 = rest;
    let r4 = enc_u128(g.game_id) + r5;
    let r3 = enc_setup(g.black_setup) + r4;
    let r2 = enc_u128(g.black_id) + r3;
    let r1 = enc_setup(g.white_setup) + r2;
    let s = enc_game_start(g) + rest;
    assert(pow256(16) > u128::MAX) by {
        reveal_with_fuel(pow256, 17);
    }
    assert(s =~= enc_u128(g.white_id) + r1);
    lemma_le_round_trip(g.white_id as nat, 16, r1);
    lemma_enc_le_len(g.white_id as nat, 16);
    assert(s.skip(16) =~= r1);
    lemma_setup_round_trip(g.white_setup, r2);
    let c2 = enc_setup(g.white_setup).len() as int;
    assert(s.skip(16 + c2) =~= r2);
    lemma_le_round_trip(g.black_id as nat, 16, r3);
    lemma_enc_le_len(g.black_id as nat, 16);
    assert(s.skip(16 + c2 + 16) =~= r3);
    lemma_setup_round_trip(g.black_setup, r4);
    let c4 = enc_setup(g.black_setup).len() as int;
    assert(s.skip(16 + c2 + 16 + c4) =~= r4);
    lemma_le_round_trip(g.game_id as nat, 16, r5);
    lemma_enc_le_len(g.game_id as nat, 16);
}

pub open spec fn enc_socket_state(v: crate::session::PlaySocketStateV) -> Seq<u8> {
    match v {
        crate::session::PlaySocketStateV::WaitingForSetup { last_message } => seq![0u8]
            + enc_opt_stream_id(last_message),
        crate::session::PlaySocketStateV::Matchmaking { elo, elo_range, setup, last_message } => {
            seq![1u8] + enc_i64(elo) + enc_i64(elo_range) + enc_setup(setup) + enc_opt_stream_id(
                last_message,
            )
        },
        crate::session::PlaySocketStateV::Game { game_id, my_turn, player, last_message } => {
            seq![2u8] + enc_u128(game_id) + enc_bool(my_turn) + enc_player(player)
                + enc_opt_stream_id(last_message)
        },
    }
}

pub open spec fn dec_socket_state(s: Seq<u8>) -> Option<(crate::session::PlaySocketStateV, int)> {
    if s.len() < 1 {
        None
    } else if s[0] == 0 {
        match dec_opt_stream_id(s.skip(1)) {
            Some((lm, c)) => Some(
                (crate::session::PlaySocketStateV::WaitingForSetup { last_message: lm }, 1 + c),
            ),
            None => None,
        }
    } else if s[0] == 1 {
        match dec_i64(s.skip(1)) {
            Some((elo, c1)) => match dec_i64(s.skip(1 + c1)) {
                Some((er, c2)) => match dec_setup(s.skip(1 + c1 + c2)) {
                    Some((su, c3)) => match dec_opt_stream_id(s.skip(1 + c1 + c2 + c3)) {
                        Some((lm, c4)) => Some(
                            (
                                crate::session::PlaySocketStateV::Matchmaking {
                                    elo,
                                    elo_range: er,
                                    setup: su,
                                    last_message: lm,
                                },
                                1 + c1 + c2 + c3 + c4,
                            ),
                        ),
                        None => None,
                    },
                    None => None,
                },
                None => None,
            },
            None => None,
        }
    } else if s[0] == 2 {
        match dec_u128(s.skip(1)) {
            Some((gid, c1)) => match dec_bool(s.skip(1 + c1)) {
                Some((mt, c2)) => match dec_player(s.skip(1 + c1 + c2)) {
                    Some((pl, c3)) => match dec_opt_stream_id(s.skip(1 + c1 + c2 + c3)) {
                        Some((lm, c4)) => Some(
                            (
                                crate::session::PlaySocketStateV::Game {
                                    game_id: gid,
                                    my_turn: mt,
                                    player: pl,
                                    last_message: lm,
                                },
                                1 + c1 + c2 + c3 + c4,
                            ),
                        ),
                        None => None,
                    },
                    None => None,
                },
                None => None,
            },
            None => None,
        }
    } else {
        None
    }
}

/// Append a session state, as stored between reconnects.
pub fn encode_socket_state(v: &crate::session::PlaySocketState, out: &mut Vec<u8>)
    ensures
        final(out)@ == old(out)@ + enc_socket_state(v@),
{
    match v {
        crate::session::PlaySocketState::WaitingForSetup { last_message } => {
            out.push(0);
            encode_opt_stream_id(*last_message, out);
        },
        crate::session::PlaySocketState::Matchmaking { elo, elo_range, setup, last_message } => {
            out.push(1);
            encode_i64(*elo, out);
            encode_i64(*elo_range, out);
            encode_setup(setup, out);
            encode_opt_stream_id(*last_message, out);
        },
        crate::session::PlaySocketState::Game { game_id, my_turn, player, last_message } => {
            out.push(2);
            encode_u128(*game_id, out);
            encode_bool(*my_turn, out);
            encode_player(*player, out);
            encode_opt_stream_id(*last_message, out);
        },
    }
    proof {
        assert(final(out)@ =~= old(out)@ + enc_socket_state(v@));
    }
}

/// Read a session state back.
#[verifier::rlimit(100)]
pub fn decode_socket_state(input: &Vec<u8>, pos: usize) -> (r: Option<
    (crate::session::PlaySocketState, usize),
>)
    requires
        pos <= input@.len(),
    ensures
        match dec_socket_state(input@.skip(pos as int)) {
            Some((v, c)) => 0 <= c && pos + c <= input@.len() && r is Some && r->Some_0.0@ == v
                && r->Some_0.1 == pos + c,
            None => r is None,
        },
{
    let ghost s = input@.skip(pos as int);
    proof {
        assert(vstd::std_specs::vec::spec_vec_len(input) == input@.len());
    }
    if pos >= input.len() {
        return None;
    }
    let tag = input[pos];
    proof {
        assert(input@.skip(pos + 1) =~= s.skip(1));
    }
    if tag == 0 {
        match decode_opt_stream_id(input, pos + 1) {
            Some((lm, p1)) => Some(
                (crate::session::PlaySocketState::WaitingForSetup { last_message: lm }, p1),
            ),
            None => None,
        }
    } else if tag == 1 {
        let (elo, p1) = match decode_i64(input, pos + 1) {
            Some(x) => x,
            None => {
                return None;
            },
        };
        proof {
            assert(input@.skip(p1 as int) =~= s.skip(p1 - pos));
        }
        let (er, p2) = match decode_i64(input, p1) {
            Some(x) => x,
            None => {
                return None;
            },
        };
        proof {
            assert(input@.skip(p2 as int) =~= s.skip(p2 - pos));
        }
        let (su, p3) = match decode_setup(input, p2) {
            Some(x) => x,
            None => {
                return None;
            },
        };
        proof {
            assert(input@.skip(p3 as int) =~= s.skip(p3 - pos));
        }
        let (lm, p4) = match decode_opt_stream_id(input, p3) {
            Some(x) => x,
            None => {
                return None;
            },
        };
        Some(
            (
                crate::session::PlaySocketState::Matchmaking {
                    elo,
                    elo_range: er,
                    setup: su,
                    last_message: lm,
                },
                p4,
            ),
        )
    } else if tag == 2 {
        let (gid, p1) = match decode_u128(input, pos + 1) {
            Some(x) => x,
            None => {
                return None;
            },
        };
        proof {
            assert(input@.skip(p1 as int) =~= s.skip(p1 - pos));
        }
        let (mt, p2) = match decode_bool(input, p1) {
            Some(x) => x,
            None => {
                return None;
            },
        };
        proof {
            assert(input@.skip(p2 as int) =~= s.skip(p2 - pos));
        }
        let (pl, p3) = match decode_player(input, p2) {
            Some(x) => x,
            None => {
                return None;
            },
        };
        proof {
            assert(input@.skip(p3 as int) =~= s.skip(p3 - pos));
        }
        let (lm, p4) = match decode_opt_stream_id(input, p3) {
            Some(x) => x,
            None => {
                return None;
            },
        };
        Some(
            (
                crate::session::PlaySocketState::Game {
                    game_id: gid,
                    my_turn: mt,
                    player: pl,
                    last_message: lm,
                },
                p4,
            ),
        )
    } else {
        None
    }
}

/// Serialization round trip for a session state whose setup, if any, is
/// well formed.
pub proof fn lemma_socket_state_round_trip(v: crate::session::PlaySocketStateV, rest: Seq<u8>)
    requires
        (v matches crate::session::PlaySocketStateV::Matchmaking { setup, .. }
            ==> crate::setup::setup_wf(setup)),
    ensures
        dec_socket_state(enc_socket_state(v) + rest) == Some(
            (v, enc_socket_state(v).len() as int),
        ),
{
    match v {
        crate::session::PlaySocketStateV::WaitingForSetup { last_message } => {
            lemma_socket_state_waiting_round_trip(last_message, rest);
        },
        crate::session::PlaySocketStateV::Matchmaking { elo, elo_range, setup, last_message } => {
            lemma_socket_state_matchmaking_round_trip(elo, elo_range, setup, last_message, rest);
        },
        crate::session::PlaySocketStateV::Game { game_id, my_turn, player, last_message } => {
            lemma_socket_state_game_round_trip(game_id, my_turn, player, last_message, rest);
        },
    }
}

proof fn lemma_socket_state_waiting_round_trip(
    last_message: Option<crate::session::StreamId>,
    rest: Seq<u8>,
)
    ensures
        ({
            let v = crate::session::PlaySocketStateV::WaitingForSetup { last_message };
            dec_socket_state(enc_socket_state(v) + rest) == Some(
                (v, enc_socket_state(v).len() as int),
            )
        }),
{
    let v = crate::session::PlaySocketStateV::WaitingForSetup { last_message };
    let s = enc_socket_state(v) + rest;
    assert(s[0] == 0);
    assert(s.skip(1) =~= enc_opt_stream_id(last_message) + rest);
    lemma_opt_stream_id_round_trip(last_message, rest);
}

proof fn lemma_socket_state_matchmaking_round_trip(
    elo: i64,
    elo_range: i64,
    setup: Seq<Seq<Option<SetupPieceType>>>,
    last_message: Option<crate::session::StreamId>,
    rest: Seq<u8>,
)
    requires
        crate::setup::setup_wf(setup),
    ensures
        ({
            let v = crate::session::PlaySocketStateV::Matchmaking {
                elo,
                elo_range,
                setup,
                last_message,
            };
            dec_socket_state(enc_socket_state(v) + rest) == Some(
                (v, enc_socket_state(v).len() as int),
            )
        }),
{
    let v = crate::session::PlaySocketStateV::Matchmaking { elo, elo_range, setup, last_message };
    let s = enc_socket_state(v) + rest;
    assert(s[0] == 1);
    assert(pow256(8) == 0x10000000000000000) by {
        reveal_with_fuel(pow256, 9);
    }
    let r4 = enc_opt_stream_id(last_message) + rest;
    let r3 = enc_setup(setup) + r4;
    let r2 = enc_i64(elo_range) + r3;
    assert(s.skip(1) =~= enc_i64(elo) + r2);
    lemma_le_round_trip((elo as u64) as nat, 8, r2);
    lemma_enc_le_len((elo as u64) as nat, 8);
    lemma_i64_round_trip(elo);
    assert(s.skip(9) =~= r2);
    lemma_le_round_trip((elo_range as u64) as nat, 8, r3);
    lemma_enc_le_len((elo_range as u64) as nat, 8);
    lemma_i64_round_trip(elo_range);
    assert(s.skip(17) =~= r3);
    lemma_setup_round_trip(setup, r4);
    let c3 = enc_setup(setup).len() as int;
    assert(s.skip(17 + c3) =~= r4);
    lemma_opt_stream_id_round_trip(last_message, rest);
}

proof fn lemma_socket_state_game_round_trip(
    game_id: u128,
    my_turn: bool,
    player: Player,
    last_message: Option<crate::session::StreamId>,
    rest: Seq<u8>,
)
    ensures
        ({
            let v = crate::session::PlaySocketStateV::Game {
                game_id,
                my_turn,
                player,
                last_message,
            };
            dec_socket_state(enc_socket_state(v) + rest) == Some(
                (v, enc_socket_state(v).len() as int),
            )
        }),
{
    let v = crate::session::PlaySocketStateV::Game { game_id, my_turn, player, last_message };
    let s = enc_socket_state(v) + rest;
    assert(s[0] == 2);
    assert(pow256(16) > u128::MAX) by {
        reveal_with_fuel(pow256, 17);
    }
    let r4 = enc_opt_stream_id(last_message) + rest;
    let r3 = enc_player(player) + r4;
    let r2 = enc_bool(my_turn) + r3;
    assert(s.skip(1) =~= enc_u128(game_id) + r2);
    lemma_le_round_trip(game_id as nat, 16, r2);
    lemma_enc_le_len(game_id as nat, 16);
    assert(s.skip(17) =~= r2);
    assert(r2[0] == enc_bool(my_turn)[0]);
    assert(s.skip(18) =~= r3);
    lemma_player_round_trip(player, r4);
    assert(s.skip(19) =~= r4);
    lemma_opt_stream_id_round_trip(last_message, rest);
}

pub open spec fn enc_play_request(v: crate::play::PlayRequestV) -> Seq<u8> {
    match v {
        crate::play::PlayRequestV::Turn { piece_idx, move_idx } => seq![0u8] + enc_usize(piece_idx)
            + enc_usize(move_idx),
        crate::play::PlayRequestV::ChatMessage { message } => seq![1u8] + enc_bytes(message),
        crate::play::PlayRequestV::ExpandEloRange => seq![2u8],
        crate::play::PlayRequestV::BoardSetup { setup } => seq![3u8] + enc_setup(setup),
        crate::play::PlayRequestV::Surrender => seq![4u8],
    }
}

pub open spec fn dec_play_request(s: Seq<u8>) -> Option<(crate::play::PlayRequestV, int)> {
    if s.len() < 1 {
        None
    } else if s[0] == 0 {
        match dec_usize(s.skip(1)) {
            Some((pi, c1)) => match dec_usize(s.skip(1 + c1)) {
                Some((mi, c2)) => Some(
                    (
                        crate::play::PlayRequestV::Turn { piece_idx: pi, move_idx: mi },
                        1 + c1 + c2,
                    ),
                ),
                None => None,
            },
            None => None,
        }
    } else if s[0] == 1 {
        match dec_bytes(s.skip(1)) {
            Some((m, c)) => Some((crate::play::PlayRequestV::ChatMessage { message: m }, 1 + c)),
            None => None,
        }
    } else if s[0] == 2 {
        Some((crate::play::PlayRequestV::ExpandEloRange, 1))
    } else if s[0] == 3 {
        match dec_setup(s.skip(1)) {
            Some((su, c)) => Some((crate::play::PlayRequestV::BoardSetup { setup: su }, 1 + c)),
            None => None,
        }
    } else if s[0] == 4 {
        Some((crate::play::PlayRequestV::Surrender, 1))
    } else {
        None
    }
}

/// Append a client request.
pub fn encode_play_request(v: &crate::play::PlayRequest, out: &mut Vec<u8>)
    ensures
        final(out)@ == old(out)@ + enc_play_request(v@),
{
    match v {
        crate::play::PlayRequest::Turn { piece_idx, move_idx } => {
            out.push(0);
            encode_usize(*piece_idx, out);
            encode_usize(*move_idx, out);
        },
        crate::play::PlayRequest::ChatMessage { message } => {
            out.push(1);
            encode_bytes(message, out);
        },
        crate::play::PlayRequest::ExpandEloRange => {
            out.push(2);
        },
        crate::play::PlayRequest::BoardSetup { setup } => {
            out.push(3);
            encode_setup(setup, out);
        },
        crate::play::PlayRequest::Surrender => {
            out.push(4);
        },
    }
    proof {
        assert(final(out)@ =~= old(out)@ + enc_play_request(v@));
    }
}

/// Read a client request; a carried setup must be two-by-eight.
pub fn decode_play_request(input: &Vec<u8>, pos: usize) -> (r: Option<
    (crate::play::PlayRequest, usize),
>)
    requires
        pos <= input@.len(),
    ensures
        match dec_play_request(input@.skip(pos as int)) {
            Some((v, c)) => 0 <= c && pos + c <= input@.len() && r is Some && r->Some_0.0@ == v
                && r->Some_0.1 == pos + c && (r->Some_0.0 matches crate::play::PlayRequest::BoardSetup {
                setup,
            } ==> crate::setup::setup_wf(setup@)),
            None => r is None,
        },
{
    let ghost s = input@.skip(pos as int);
    proof {
        assert(vstd::std_specs::vec::spec_vec_len(input) == input@.len());
    }
    if pos >= input.len() {
        return None;
    }
    let tag = input[pos];
    proof {
        assert(input@.skip(pos + 1) =~= s.skip(1));
    }
    if tag == 0 {
        let (pi, p1) = match decode_usize(input, pos + 1) {
            Some(x) => x,
            None => {
                return None;
            },
        };
        proof {
            assert(input@.skip(p1 as int) =~= s.skip(p1 - pos));
        }
        let (mi, p2) = match decode_usize(input, p1) {
            Some(x) => x,
            None => {
                return None;
            },
        };
        Some((crate::play::PlayRequest::Turn { piece_idx: pi, move_idx: mi }, p2))
    } else if tag == 1 {
        match decode_bytes(input, pos + 1) {
            Some((m, p1)) => Some((crate::play::PlayRequest::ChatMessage { message: m }, p1)),
            None => None,
        }
    } else if tag == 2 {
        Some((crate::play::PlayRequest::ExpandEloRange, pos + 1))
    } else if tag == 3 {
        match decode_setup(input, pos + 1) {
            Some((su, p1)) => Some((crate::play::PlayRequest::BoardSetup { setup: su }, p1)),
            None => None,
        }
    } else if tag == 4 {
        Some((crate::play::PlayRequest::Surrender, pos + 1))
    } else {
        None
    }
}

/// Serialization round trip for a client request whose payload is sane: a
/// chat fits in memory and a setup is two-by-eight.
pub proof fn lemma_play_request_round_trip(v: crate::play::PlayRequestV, rest: Seq<u8>)
    requires
        (v matches crate::play::PlayRequestV::ChatMessage { message } ==> message.len()
            <= usize::MAX),
        (v matches crate::play::PlayRequestV::BoardSetup { setup } ==> crate::setup::setup_wf(
            setup,
        )),
    ensures
        dec_play_request(enc_play_request(v) + rest) == Some(
            (v, enc_play_request(v).len() as int),
        ),
{
    let s = enc_play_request(v) + rest;
    assert(s[0] == enc_play_request(v)[0]);
    assert(pow256(8) == 0x10000000000000000) by {
        reveal_with_fuel(pow256, 9);
    }
    match v {
        crate::play::PlayRequestV::Turn { piece_idx, move_idx } => {
            let r2 = enc_usize(move_idx) + rest;
            assert(s.skip(1) =~= enc_usize(piece_idx) + r2);
            lemma_le_round_trip(piece_idx as nat, 8, r2);
            lemma_enc_le_len(piece_idx as nat, 8);
            assert(s.skip(9) =~= r2);
            lemma_le_round_trip(move_idx as nat, 8, rest);
            lemma_enc_le_len(move_idx as nat, 8);
        },
        crate::play::PlayRequestV::ChatMessage { message } => {
            assert(s.skip(1) =~= enc_bytes(message) + rest);
            lemma_bytes_round_trip(message, rest);
        },
        crate::play::PlayRequestV::BoardSetup { setup } => {
            assert(s.skip(1) =~= enc_setup(setup) + rest);
            lemma_setup_round_trip(setup, rest);
        },
        _ => {},
    }
}

pub open spec fn enc_play_response(v: crate::play::PlayResponseV) -> Seq<u8> {
    match v {
        crate::play::PlayResponseV::InvalidRequest => seq![0u8],
        crate::play::PlayResponseV::GameState { board } => seq![1u8] + enc_board(board),
        crate::play::PlayResponseV::TurnStart { turn, move_pieces, moves } => seq![2u8]
            + enc_turn_start(
            crate::play::TurnStartV { turn, move_pieces, moves },
        ),
        crate::play::PlayResponseV::Move { moves } => seq![3u8] + enc_move_list(moves),
        crate::play::PlayResponseV::End { winner } => seq![4u8] + enc_u128(winner),
        crate::play::PlayResponseV::ChatMessage { message } => seq![5u8] + enc_chat(message),
        crate::play::PlayResponseV::FullChat { chat } => seq![6u8] + enc_chat_list(chat),
    }
}

pub open spec fn dec_play_response(s: Seq<u8>) -> Option<(crate::play::PlayResponseV, int)> {
    if s.len() < 1 {
        None
    } else if s[0] == 0 {
        Some((crate::play::PlayResponseV::InvalidRequest, 1))
    } else if s[0] == 1 {
        match dec_board(s.skip(1)) {
            Some((b, c)) => Some((crate::play::PlayResponseV::GameState { board: b }, 1 + c)),
            None => None,
        }
    } else if s[0] == 2 {
        match dec_turn_start(s.skip(1)) {
            Some((t, c)) => Some(
                (
                    crate::play::PlayResponseV::TurnStart {
                        turn: t.turn,
                        move_pieces: t.move_pieces,
                        moves: t.moves,
                    },
                    1 + c,
                ),
            ),
            None => None,
        }
    } else if s[0] == 3 {
        match dec_move_list(s.skip(1)) {
            Some((ms, c)) => Some((crate::play::PlayResponseV::Move { moves: ms }, 1 + c)),
            None => None,
        }
    } else if s[0] == 4 {
        match dec_u128(s.skip(1)) {
            Some((w, c)) => Some((crate::play::PlayResponseV::End { winner: w }, 1 + c)),
            None => None,
        }
    } else if s[0] == 5 {
        match dec_chat(s.skip(1)) {
            Some((m, c)) => Some((crate::play::PlayResponseV::ChatMessage { message: m }, 1 + c)),
            None => None,
        }
    } else if s[0] == 6 {
        match dec_chat_list(s.skip(1)) {
            Some((cs, c)) => Some((crate::play::PlayResponseV::FullChat { chat: cs }, 1 + c)),
            None => None,
        }
    } else {
        None
    }
}

/// Append a server response.
pub fn encode_play_response(v: &crate::play::PlayResponse, out: &mut Vec<u8>)
    ensures
        final(out)@ == old(out)@ + enc_play_response(v@),
{
    match v {
        crate::play::PlayResponse::InvalidRequest => {
            out.push(0);
        },
        crate::play::PlayResponse::GameState { board } => {
            out.push(1);
            encode_board(board, out);
        },
        crate::play::PlayResponse::TurnStart { turn, move_pieces, moves } => {
            out.push(2);
            encode_player(*turn, out);
            encode_vec2_list(move_pieces, out);
            proof {
                assert(move_rows_view(moves) =~= v@->TurnStart_moves);
            }
            encode_move_rows_list(moves, out);
        },
        crate::play::PlayResponse::Move { moves } => {
            out.push(3);
            encode_move_list(moves, out);
        },
        crate::play::PlayResponse::End { winner } => {
            out.push(4);
            encode_u128(*winner, out);
        },
        crate::play::PlayResponse::ChatMessage { message } => {
            out.push(5);
            encode_chat(message, out);
        },
        crate::play::PlayResponse::FullChat { chat } => {
            out.push(6);
            proof {
                assert(chats_view(chat) =~= v@->FullChat_chat);
            }
            encode_chat_list(chat, out);
        },
    }
    proof {
        assert(final(out)@ =~= old(out)@ + enc_play_response(v@));
    }
}

/// Read a server response; a carried board must be well formed.
#[verifier::rlimit(100)]
pub fn decode_play_response(input: &Vec<u8>, pos: usize) -> (r: Option<
    (crate::play::PlayResponse, usize),
>)
    requires
        pos <= input@.len(),
    ensures
        match dec_play_response(input@.skip(pos as int)) {
            Some((v, c)) => 0 <= c && pos + c <= input@.len() && r is Some && r->Some_0.0@ == v
                && r->Some_0.1 == pos + c,
            None => r is None,
        },
{
    let ghost s = input@.skip(pos as int);
    proof {
        assert(vstd::std_specs::vec::spec_vec_len(input) == input@.len());
    }
    if pos >= input.len() {
        return None;
    }
    let tag = input[pos];
    proof {
        assert(input@.skip(pos + 1) =~= s.skip(1));
    }
    if tag == 0 {
        Some((crate::play::PlayResponse::InvalidRequest, pos + 1))
    } else if tag == 1 {
        match decode_board(input, pos + 1) {
            Some((b, p1)) => Some((crate::play::PlayResponse::GameState { board: b }, p1)),
            None => None,
        }
    } else if tag == 2 {
        match decode_turn_start(input, pos + 1) {
            Some((t, p1)) => {
                let crate::play::TurnStart { turn, move_pieces, moves } = t;
                let resp = crate::play::PlayResponse::TurnStart { turn, move_pieces, moves };
                proof {
                    assert(resp@->TurnStart_moves =~= move_rows_view(&resp->TurnStart_moves));
                }
                Some((resp, p1))
            },
            None => None,
        }
    } else if tag == 3 {
        match decode_move_list(input, pos + 1) {
            Some((ms, p1)) => Some((crate::play::PlayResponse::Move { moves: ms }, p1)),
            None => None,
        }
    } else if tag == 4 {
        match decode_u128(input, pos + 1) {
            Some((w, p1)) => Some((crate::play::PlayResponse::End { winner: w }, p1)),
            None => None,
        }
    } else if tag == 5 {
        match decode_chat(input, pos + 1) {
            Some((m, p1)) => Some((crate::play::PlayResponse::ChatMessage { message: m }, p1)),
            None => None,
        }
    } else if tag == 6 {
        match decode_chat_list(input, pos + 1) {
            Some((cs, p1)) => {
                let resp = crate::play::PlayResponse::FullChat { chat: cs };
                proof {
                    assert(resp@->FullChat_chat =~= chats_view(&resp->FullChat_chat));
                }
                Some((resp, p1))
            },
            None => None,
        }
    } else {
        None
    }
}

/// Serialization round trip for a server response whose payload is sane.
#[verifier::rlimit(100)]
pub proof fn lemma_play_response_round_trip(v: crate::play::PlayResponseV, rest: Seq<u8>)
    requires
        (v matches crate::play::PlayResponseV::GameState { board } ==> board.wf()
            && board.moves_ok() && board.move_pieces.len() <= usize::MAX && board.moves.len()
            <= usize::MAX && (forall|i: int|
            0 <= i < board.moves.len() ==> (#[trigger] board.moves[i]).len() <= usize::MAX)),
        (v matches crate::play::PlayResponseV::TurnStart { move_pieces, moves, .. }
            ==> move_pieces.len() <= usize::MAX && moves.len() <= usize::MAX && (forall|i: int|
            0 <= i < moves.len() ==> (#[trigger] moves[i]).len() <= usize::MAX)),
        (v matches crate::play::PlayResponseV::Move { moves } ==> moves.len() <= usize::MAX),
        (v matches crate::play::PlayResponseV::ChatMessage { message } ==> message.message.len()
            <= usize::MAX),
        (v matches crate::play::PlayResponseV::FullChat { chat } ==> chat.len() <= usize::MAX && (
        forall|i: int| 0 <= i < chat.len() ==> (#[trigger] chat[i]).message.len() <= usize::MAX)),
    ensures
        dec_play_response(enc_play_response(v) + rest) == Some(
            (v, enc_play_response(v).len() as int),
        ),
{
    let s = enc_play_response(v) + rest;
    assert(s[0] == enc_play_response(v)[0]);
    assert(pow256(16) > u128::MAX) by {
        reveal_with_fuel(pow256, 17);
    }
    match v {
        crate::play::PlayResponseV::GameState { board } => {
            assert(s.skip(1) =~= enc_board(board) + rest);
            lemma_board_round_trip(board, rest);
        },
        crate::play::PlayResponseV::TurnStart { turn, move_pieces, moves } => {
            let t = crate::play::TurnStartV { turn, move_pieces, moves };
            assert(s.skip(1) =~= enc_turn_start(t) + rest);
            lemma_turn_start_round_trip(t, rest);
        },
        crate::play::PlayResponseV::Move { moves } => {
            assert(s.skip(1) =~= enc_move_list(moves) + rest);
            lemma_move_list_round_trip(moves, rest);
        },
        crate::play::PlayResponseV::End { winner } => {
            assert(s.skip(1) =~= enc_u128(winner) + rest);
            lemma_le_round_trip(winner as nat, 16, rest);
            lemma_enc_le_len(winner as nat, 16);
        },
        crate::play::PlayResponseV::ChatMessage { message } => {
            assert(s.skip(1) =~= enc_chat(message) + rest);
            lemma_chat_round_trip(message, rest);
        },
        crate::play::PlayResponseV::FullChat { chat } => {
            assert(s.skip(1) =~= enc_chat_list(chat) + rest);
            lemma_chat_list_round_trip(chat, rest);
        },
        _ => {},
    }
}

} // verus!
