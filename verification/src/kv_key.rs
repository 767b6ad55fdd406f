use vstd::prelude::*;

verus! {

use vstd::string::StringSliceAdditionalSpecFns;

// Meta-service keys are strings of the form `seg/seg/.../seg`.  A segment is
// either a raw prefix, a percent-escaped name, or a decimal number.  This
// module holds the byte-level codec: escaping, decimal formatting and parsing,
// splitting and joining on `/`, and the builder/parser pair that the ident
// types use.  Everything is specified over `Seq<u8>`.

/// The ways a key string can fail to decode.
#[derive(Clone, Copy, Debug, PartialEq, Eq, Structural)]
pub enum KeyError {
    WrongNumberOfSegments,
    WrongPrefix,
    UnexpectedEnd,
    EmptySegment,
    InvalidEscape,
    InvalidName,
    InvalidNumber,
}

pub const SLASH: u8 = 47;
pub const PERCENT: u8 = 37;

/// Bytes that a key keeps unescaped: ASCII alphanumerics and `_`.
pub open spec fn is_plain_key_byte(b: u8) -> bool {
    (48 <= b && b <= 57) || (65 <= b && b <= 90) || (97 <= b && b <= 122) || b == 95
}

/// The lower-case hex digit for a value below 16.
pub open spec fn hex_digit(d: u8) -> u8
    recommends
        d < 16,
{
    if d < 10 {
        (48 + d) as u8
    } else {
        (87 + d) as u8
    }
}

pub open spec fn is_hex_lower(b: u8) -> bool {
    (48 <= b && b <= 57) || (97 <= b && b <= 102)
}

/// The value of a lower-case hex digit byte.
pub open spec fn hex_val(b: u8) -> u8
    recommends
        is_hex_lower(b),
{
    if b <= 57 {
        (b - 48) as u8
    } else {
        (b - 87) as u8
    }
}

/// How a single byte appears in a key: itself when plain, else `%xx`.
pub open spec fn escape_byte(b: u8) -> Seq<u8> {
    if is_plain_key_byte(b) {
        seq![b]
    } else {
        seq![PERCENT, hex_digit(b / 16), hex_digit(b % 16)]
    }
}

/// The escaped form of a byte string.
pub open spec fn escape_bytes(s: Seq<u8>) -> Seq<u8>
    decreases s.len(),
{
    if s.len() == 0 {
        Seq::empty()
    } else {
        escape_byte(s[0]) + escape_bytes(s.drop_first())
    }
}

/// The inverse of [`escape_bytes`]: `None` on a malformed escape.
pub open spec fn unescape_bytes(s: Seq<u8>) -> Option<Seq<u8>>
    decreases s.len(),
{
    if s.len() == 0 {
        Some(Seq::empty())
    } else if s[0] == PERCENT {
        if s.len() >= 3 && is_hex_lower(s[1]) && is_hex_lower(s[2]) {
            match unescape_bytes(s.skip(3)) {
                Some(r) => Some(seq![(hex_val(s[1]) * 16 + hex_val(s[2])) as u8] + r),
                None => None,
            }
        } else {
            None
        }
    } else {
        match unescape_bytes(s.drop_first()) {
            Some(r) => Some(seq![s[0]] + r),
            None => None,
        }
    }
}

proof fn lemma_escape_bytes_push(s: Seq<u8>, b: u8)
    ensures
        escape_bytes(s.push(b)) == escape_bytes(s) + escape_byte(b),
    decreases s.len(),
{
    if s.len() == 0 {
        assert(s =~= Seq::<u8>::empty());
        assert(s.push(b)[0] == b);
        assert(s.push(b).drop_first() =~= Seq::<u8>::empty());
        assert(escape_bytes(Seq::<u8>::empty()) == Seq::<u8>::empty());
        assert(escape_bytes(s.push(b)) == escape_byte(b) + escape_bytes(s.push(b).drop_first()));
        assert(escape_byte(b) + Seq::<u8>::empty() =~= escape_byte(b));
        assert(Seq::<u8>::empty() + escape_byte(b) =~= escape_byte(b));
    } else {
        assert(s.push(b)[0] == s[0]);
        assert(s.push(b).drop_first() =~= s.drop_first().push(b));
        lemma_escape_bytes_push(s.drop_first(), b);
        assert(escape_bytes(s.push(b)) =~= escape_bytes(s) + escape_byte(b));
    }
}

/// Every byte of an escaped string is printable ASCII and is never `/`.
pub proof fn lemma_escape_bytes_ascii(s: Seq<u8>)
    ensures
        forall|i: int|
            0 <= i < escape_bytes(s).len() ==> #[trigger] escape_bytes(s)[i] != SLASH
                && escape_bytes(s)[i] < 128,
    decreases s.len(),
{
    if s.len() > 0 {
        lemma_escape_bytes_ascii(s.drop_first());
        assert forall|i: int| 0 <= i < escape_bytes(s).len() implies #[trigger] escape_bytes(s)[i]
            != SLASH && escape_bytes(s)[i] < 128 by {
            if i < escape_byte(s[0]).len() {
                assert(escape_bytes(s)[i] == escape_byte(s[0])[i]);
            } else {
                assert(escape_bytes(s)[i] == escape_bytes(s.drop_first())[i - escape_byte(
                    s[0],
                ).len()]);
            }
        }
    }
}

/// Unescaping inverts escaping.
pub proof fn lemma_unescape_escape(s: Seq<u8>)
    ensures
        unescape_bytes(escape_bytes(s)) == Some(s),
    decreases s.len(),
{
    if s.len() == 0 {
        assert(unescape_bytes(escape_bytes(s)) =~= Some(s));
    } else {
        let b = s[0];
        let e = escape_bytes(s);
        lemma_unescape_escape(s.drop_first());
        if is_plain_key_byte(b) {
            assert(e[0] == b && b != PERCENT);
            assert(e.drop_first() =~= escape_bytes(s.drop_first()));
            assert(unescape_bytes(e) == Some(seq![b] + s.drop_first()));
            assert(seq![b] + s.drop_first() =~= s);
        } else {
            assert(e[0] == PERCENT);
            assert(e.len() >= 3);
            assert(e[1] == hex_digit(b / 16) && e[2] == hex_digit(b % 16));
            assert(is_hex_lower(hex_digit(b / 16)) && is_hex_lower(hex_digit(b % 16)));
            assert(hex_val(hex_digit(b / 16)) == b / 16);
            assert(hex_val(hex_digit(b % 16)) == b % 16);
            assert((b / 16) * 16 + b % 16 == b) by (nonlinear_arith);
            assert(e.skip(3) =~= escape_bytes(s.drop_first()));
            assert(unescape_bytes(e) == Some(seq![b] + s.drop_first()));
            assert(seq![b] + s.drop_first() =~= s);
        }
    }
}

fn hex_digit_exec(d: u8) -> (r: u8)
    requires
        d < 16,
    ensures
        r == hex_digit(d),
{
    if d < 10 {
        48 + d
    } else {
        87 + d
    }
}

fn is_plain_key_byte_exec(b: u8) -> (r: bool)
    ensures
        r == is_plain_key_byte(b),
{
    (48 <= b && b <= 57) || (65 <= b && b <= 90) || (97 <= b && b <= 122) || b == 95
}

/// Escape a byte string for use as one key segment.
pub fn escape_bytes_exec(s: &[u8]) -> (r: Vec<u8>)
    ensures
        r@ == escape_bytes(s@),
{
    let mut r: Vec<u8> = Vec::new();
    let mut i: usize = 0;
    while i < s.len()
        invariant
            i <= s@.len(),
            r@ == escape_bytes(s@.take(i as int)),
        decreases s@.len() - i,
    {
        let b = s[i];
        proof {
            lemma_escape_bytes_push(s@.take(i as int), b);
            assert(s@.take(i as int).push(b) =~= s@.take(i + 1));
        }
        if is_plain_key_byte_exec(b) {
            r.push(b);
            assert(r@ =~= escape_bytes(s@.take(i + 1)));
        } else {
            r.push(37);
            r.push(hex_digit_exec(b / 16));
            r.push(hex_digit_exec(b % 16));
            assert(r@ =~= escape_bytes(s@.take(i + 1)));
        }
        i = i + 1;
    }
    proof {
        assert(s@.take(s@.len() as int) =~= s@);
    }
    r
}

/// Undo [`escape_bytes_exec`]; reports a malformed escape sequence.
pub fn unescape_bytes_exec(s: &[u8]) -> (r: Result<Vec<u8>, KeyError>)
    ensures
        match r {
            Ok(v) => unescape_bytes(s@) == Some(v@),
            Err(_) => unescape_bytes(s@) is None,
        },
{
    let mut out: Vec<u8> = Vec::new();
    let mut i: usize = 0;
    proof {
        assert(s@.skip(0) =~= s@);
        if unescape_bytes(s@) is Some {
            let rest0 = unescape_bytes(s@).unwrap();
            assert(Seq::<u8>::empty() + rest0 =~= rest0);
        }
    }
    while i < s.len()
        invariant
            i <= s@.len(),
            match unescape_bytes(s@.skip(i as int)) {
                Some(rest) => unescape_bytes(s@) == Some(out@ + rest),
                None => unescape_bytes(s@) is None,
            },
        decreases s@.len() - i,
    {
        let b = s[i];
        proof {
            assert(s@.skip(i as int)[0] == s@[i as int]);
        }
        if b == 37 {
            if s.len() - i < 3 {
                proof {
                    assert(s@.skip(i as int).len() < 3);
                }
                return Err(KeyError::InvalidEscape);
            }
            let h1 = s[i + 1];
            let h2 = s[i + 2];
            let hex1 = (48 <= h1 && h1 <= 57) || (97 <= h1 && h1 <= 102);
            let hex2 = (48 <= h2 && h2 <= 57) || (97 <= h2 && h2 <= 102);
            proof {
                assert(s@.skip(i as int)[1] == s@[i + 1]);
                assert(s@.skip(i as int)[2] == s@[i + 2]);
            }
            if !(hex1 && hex2) {
                return Err(KeyError::InvalidEscape);
            }
            let v1 = if h1 <= 57 {
                h1 - 48
            } else {
                h1 - 87
            };
            let v2 = if h2 <= 57 {
                h2 - 48
            } else {
                h2 - 87
            };
            let ghost out_pre = out@;
            out.push(v1 * 16 + v2);
            proof {
                assert(s@.skip(i as int).skip(3) =~= s@.skip(i + 3));
                if unescape_bytes(s@.skip(i + 3)) is Some {
                    let rest2 = unescape_bytes(s@.skip(i + 3)).unwrap();
                    assert(out@ + rest2 =~= out_pre + (seq![(hex_val(s@[i + 1]) * 16 + hex_val(
                        s@[i + 2],
                    )) as u8] + rest2));
                }
            }
            i = i + 3;
        } else {
            let ghost out_pre = out@;
            out.push(b);
            proof {
                assert(s@.skip(i as int).drop_first() =~= s@.skip(i + 1));
                if unescape_bytes(s@.skip(i + 1)) is Some {
                    let rest2 = unescape_bytes(s@.skip(i + 1)).unwrap();
                    assert(out@ + rest2 =~= out_pre + (seq![s@[i as int]] + rest2));
                }
            }
            i = i + 1;
        }
    }
    proof {
        assert(s@.skip(i as int) =~= Seq::<u8>::empty());
        assert(out@ + Seq::<u8>::empty() =~= out@);
    }
    Ok(out)
}

// ---------------------------------------------------------------------------
// Decimal formatting and parsing
// ---------------------------------------------------------------------------
/// The decimal digit string of a natural number, most significant digit first.
pub open spec fn dec_digits(n: nat) -> Seq<u8>
    decreases n,
{
    if n < 10 {
        seq![(48 + n) as u8]
    } else {
        dec_digits(n / 10) + seq![(48 + n % 10) as u8]
    }
}

pub open spec fn is_dec_byte(b: u8) -> bool {
    48 <= b && b <= 57
}

pub open spec fn all_dec(s: Seq<u8>) -> bool {
    forall|i: int| 0 <= i < s.len() ==> is_dec_byte(#[trigger] s[i])
}

/// The numeric value of a digit string.
pub open spec fn dec_val(s: Seq<u8>) -> nat
    recommends
        all_dec(s),
    decreases s.len(),
{
    if s.len() == 0 {
        0
    } else {
        (dec_val(s.drop_last()) * 10 + (s.last() - 48)) as nat
    }
}

pub proof fn lemma_dec_digits_wf(n: nat)
    ensures
        all_dec(dec_digits(n)),
        dec_digits(n).len() >= 1,
        dec_val(dec_digits(n)) == n,
    decreases n,
{
    if n < 10 {
        let d = seq![(48 + n) as u8];
        assert(d.drop_last() =~= Seq::<u8>::empty());
        assert(d.last() == (48 + n) as u8);
        assert(dec_val(d) == dec_val(Seq::<u8>::empty()) * 10 + ((48 + n) as u8 - 48));
        assert(dec_val(d) == n);
    } else {
        lemma_dec_digits_wf(n / 10);
        let d = dec_digits(n);
        assert(d.drop_last() =~= dec_digits(n / 10));
        assert(d.last() == (48 + n % 10) as u8);
        assert(dec_val(d) == (n / 10) * 10 + n % 10);
        assert((n / 10) * 10 + n % 10 == n) by (nonlinear_arith);
        assert forall|i: int| 0 <= i < d.len() implies is_dec_byte(#[trigger] d[i]) by {
            if i < dec_digits(n / 10).len() {
                assert(d[i] == dec_digits(n / 10)[i]);
            }
        }
    }
}

proof fn lemma_dec_val_prefix_le(s: Seq<u8>, k: int)
    requires
        all_dec(s),
        0 <= k <= s.len(),
    ensures
        dec_val(s) >= dec_val(s.take(k)),
    decreases s.len() - k,
{
    if k < s.len() {
        lemma_dec_val_prefix_le(s, k + 1);
        let t = s.take(k + 1);
        assert(t.drop_last() =~= s.take(k));
        assert(t.last() == s[k]);
        assert(dec_val(t) == dec_val(s.take(k)) * 10 + (s[k] - 48));
        assert(dec_val(s.take(k)) * 10 >= dec_val(s.take(k))) by (nonlinear_arith);
    } else {
        assert(s.take(k) =~= s);
    }
}

/// Append the decimal digits of `n` to `buf`.
pub fn push_dec_u64(buf: &mut Vec<u8>, n: u64)
    ensures
        final(buf)@ == old(buf)@ + dec_digits(n as nat),
    decreases n,
{
    if n >= 10 {
        push_dec_u64(buf, n / 10);
    }
    buf.push(48 + (n % 10) as u8);
    proof {
        if n < 10 {
            assert(dec_digits(n as nat) =~= seq![(48 + n as nat) as u8]);
            assert(buf@ =~= old(buf)@ + dec_digits(n as nat));
        } else {
            assert(buf@ =~= old(buf)@ + (dec_digits((n / 10) as nat) + seq![
                (48 + n as nat % 10) as u8,
            ]));
            assert(dec_digits(n as nat) == dec_digits((n as nat) / 10) + seq![
                (48 + (n as nat) % 10) as u8,
            ]);
        }
    }
}

/// Parse a decimal segment into a `u64`; exact about every failure.
pub fn parse_dec_u64(s: &[u8]) -> (r: Result<u64, KeyError>)
    ensures
        match r {
            Ok(n) => s@.len() > 0 && all_dec(s@) && dec_val(s@) == n,
            Err(_) => s@.len() == 0 || !all_dec(s@) || dec_val(s@) > u64::MAX,
        },
{
    if s.len() == 0 {
        return Err(KeyError::InvalidNumber);
    }
    let mut v: u64 = 0;
    let mut i: usize = 0;
    while i < s.len()
        invariant
            0 < s@.len(),
            i <= s@.len(),
            all_dec(s@.take(i as int)),
            v == dec_val(s@.take(i as int)),
        decreases s@.len() - i,
    {
        let b = s[i];
        if !(48 <= b && b <= 57) {
            return Err(KeyError::InvalidNumber);
        }
        let d = b - 48;
        if v > (u64::MAX - d as u64) / 10 {
            proof {
                let t = s@.take(i + 1);
                assert(t.drop_last() =~= s@.take(i as int));
                assert(t.last() == s@[i as int]);
                assert(dec_val(t) == v * 10 + d);
                assert(v * 10 + d > u64::MAX) by (nonlinear_arith)
                    requires
                        v > (u64::MAX - d as u64) / 10,
                        d < 10,
                ;
                if all_dec(s@) {
                    lemma_dec_val_prefix_le(s@, i + 1);
                }
            }
            return Err(KeyError::InvalidNumber);
        }
        proof {
            assert(v * 10 + d <= u64::MAX) by (nonlinear_arith)
                requires
                    v <= (u64::MAX - d as u64) / 10,
                    d < 10,
            ;
        }
        let next = v * 10 + d as u64;
        proof {
            let t = s@.take(i + 1);
            assert(t.drop_last() =~= s@.take(i as int));
            assert(t.last() == s@[i as int]);
        }
        v = next;
        i = i + 1;
    }
    proof {
        assert(s@.take(s@.len() as int) =~= s@);
    }
    Ok(v)
}

// ---------------------------------------------------------------------------
// Splitting and joining on '/'
// ---------------------------------------------------------------------------
/// Helper for [`split_slash`]: segments of `s` from `pos`, with `cur` the
/// partial segment read so far.
pub open spec fn split_acc(s: Seq<u8>, pos: int, cur: Seq<u8>) -> Seq<Seq<u8>>
    decreases s.len() - pos,
{
    if pos < 0 || pos >= s.len() {
        seq![cur]
    } else if s[pos] == SLASH {
        seq![cur] + split_acc(s, pos + 1, Seq::empty())
    } else {
        split_acc(s, pos + 1, cur.push(s[pos]))
    }
}

/// The segments of a byte string, split on `/`.  Always non-empty.
pub open spec fn split_slash(s: Seq<u8>) -> Seq<Seq<u8>> {
    split_acc(s, 0, Seq::empty())
}

/// The byte string with `/` between consecutive segments.
pub open spec fn join_segs(segs: Seq<Seq<u8>>) -> Seq<u8>
    decreases segs.len(),
{
    if segs.len() == 0 {
        Seq::empty()
    } else if segs.len() == 1 {
        segs[0]
    } else {
        segs[0] + seq![SLASH] + join_segs(segs.drop_first())
    }
}

pub open spec fn seg_no_slash(seg: Seq<u8>) -> bool {
    forall|i: int| 0 <= i < seg.len() ==> #[trigger] seg[i] != SLASH
}

pub open spec fn segs_no_slash(segs: Seq<Seq<u8>>) -> bool {
    forall|i: int| 0 <= i < segs.len() ==> seg_no_slash(#[trigger] segs[i])
}

proof fn lemma_split_acc_skip(s: Seq<u8>, pos: int, cur: Seq<u8>)
    requires
        0 <= pos <= s.len(),
    ensures
        split_acc(s, pos, cur) == split_acc(s.skip(pos), 0, cur),
    decreases s.len() - pos,
{
    if pos == s.len() {
        assert(s.skip(pos).len() == 0);
    } else {
        assert(s.skip(pos)[0] == s[pos]);
        if s[pos] == SLASH {
            lemma_split_acc_skip(s, pos + 1, Seq::empty());
            lemma_split_acc_skip(s.skip(pos), 1, Seq::empty());
            assert(s.skip(pos).skip(1) =~= s.skip(pos + 1));
        } else {
            lemma_split_acc_skip(s, pos + 1, cur.push(s[pos]));
            lemma_split_acc_skip(s.skip(pos), 1, cur.push(s[pos]));
            assert(s.skip(pos).skip(1) =~= s.skip(pos + 1));
        }
    }
}

proof fn lemma_split_acc_no_slash(s: Seq<u8>, pos: int, cur: Seq<u8>)
    requires
        0 <= pos <= s.len(),
        forall|i: int| pos <= i < s.len() ==> #[trigger] s[i] != SLASH,
    ensures
        split_acc(s, pos, cur) == seq![cur + s.subrange(pos, s.len() as int)],
    decreases s.len() - pos,
{
    if pos == s.len() {
        assert(cur + s.subrange(pos, s.len() as int) =~= cur);
    } else {
        lemma_split_acc_no_slash(s, pos + 1, cur.push(s[pos]));
        assert(cur.push(s[pos]) + s.subrange(pos + 1, s.len() as int) =~= cur + s.subrange(
            pos,
            s.len() as int,
        ));
    }
}

proof fn lemma_split_acc_slash(s: Seq<u8>, pos: int, cur: Seq<u8>, e: int)
    requires
        0 <= pos <= e < s.len(),
        s[e] == SLASH,
        forall|i: int| pos <= i < e ==> #[trigger] s[i] != SLASH,
    ensures
        split_acc(s, pos, cur) == seq![cur + s.subrange(pos, e)] + split_acc(
            s,
            e + 1,
            Seq::empty(),
        ),
    decreases e - pos,
{
    if pos == e {
        assert(cur + s.subrange(pos, e) =~= cur);
    } else {
        lemma_split_acc_slash(s, pos + 1, cur.push(s[pos]), e);
        assert(cur.push(s[pos]) + s.subrange(pos + 1, e) =~= cur + s.subrange(pos, e));
    }
}

/// Splitting inverts joining, for slash-free segments.
pub proof fn lemma_split_join(segs: Seq<Seq<u8>>)
    requires
        segs.len() >= 1,
        segs_no_slash(segs),
    ensures
        split_slash(join_segs(segs)) == segs,
    decreases segs.len(),
{
    let j = join_segs(segs);
    if segs.len() == 1 {
        assert(seg_no_slash(segs[0]));
        lemma_split_acc_no_slash(j, 0, Seq::empty());
        assert(Seq::<u8>::empty() + j.subrange(0, j.len() as int) =~= segs[0]);
        assert(split_slash(j) =~= segs);
    } else {
        let head = segs[0];
        let rest = segs.drop_first();
        let jr = join_segs(rest);
        assert(seg_no_slash(head));
        let e = head.len() as int;
        assert(j[e] == SLASH);
        assert(forall|i: int| 0 <= i < e ==> #[trigger] j[i] == head[i]);
        lemma_split_acc_slash(j, 0, Seq::empty(), e);
        assert(Seq::<u8>::empty() + j.subrange(0, e) =~= head);
        lemma_split_acc_skip(j, e + 1, Seq::empty());
        assert(j.skip(e + 1) =~= jr);
        assert(segs_no_slash(rest)) by {
            assert(forall|i: int|
                0 <= i < rest.len() ==> rest[i] == segs[i + 1] && seg_no_slash(
                    #[trigger] segs[i + 1],
                ));
        }
        lemma_split_join(rest);
        assert(split_slash(j) =~= seq![head] + rest);
        assert(seq![head] + rest =~= segs);
    }
}

/// Joining one more segment appends a separator and the segment.
pub proof fn lemma_join_push(segs: Seq<Seq<u8>>, seg: Seq<u8>)
    requires
        segs.len() >= 1,
    ensures
        join_segs(segs.push(seg)) == join_segs(segs) + seq![SLASH] + seg,
    decreases segs.len(),
{
    if segs.len() == 1 {
        let p = segs.push(seg);
        assert(p[0] == segs[0]);
        assert(p.drop_first() =~= seq![seg]);
        assert(join_segs(seq![seg]) == seg);
        assert(join_segs(p) == p[0] + seq![SLASH] + join_segs(p.drop_first()));
        assert(join_segs(segs) == segs[0]);
    } else {
        let p = segs.push(seg);
        assert(p[0] == segs[0]);
        assert(p.drop_first() =~= segs.drop_first().push(seg));
        lemma_join_push(segs.drop_first(), seg);
        assert(join_segs(p) == p[0] + seq![SLASH] + (join_segs(segs.drop_first()) + seq![SLASH]
            + seg));
        assert(p[0] + seq![SLASH] + (join_segs(segs.drop_first()) + seq![SLASH] + seg) =~= (segs[0]
            + seq![SLASH] + join_segs(segs.drop_first())) + seq![SLASH] + seg);
    }
}

/// The byte sequences held by a sequence of byte vectors.
pub open spec fn seg_views(v: Seq<Vec<u8>>) -> Seq<Seq<u8>> {
    Seq::new(v.len(), |i: int| v[i]@)
}

/// Split a byte string on `/`.
pub fn split_slash_exec(s: &[u8]) -> (r: Vec<Vec<u8>>)
    ensures
        seg_views(r@) == split_slash(s@),
        r@.len() >= 1,
{
    let mut r: Vec<Vec<u8>> = Vec::new();
    let mut cur: Vec<u8> = Vec::new();
    let mut i: usize = 0;
    proof {
        assert(seg_views(r@) =~= Seq::<Seq<u8>>::empty());
        assert(Seq::<Seq<u8>>::empty() + split_acc(s@, 0, cur@) =~= split_acc(s@, 0, cur@));
    }
    while i < s.len()
        invariant
            i <= s@.len(),
            split_slash(s@) == seg_views(r@) + split_acc(s@, i as int, cur@),
        decreases s@.len() - i,
    {
        let b = s[i];
        if b == 47 {
            let ghost r_pre = r@;
            let ghost cur_pre = cur@;
            r.push(cur);
            cur = Vec::new();
            proof {
                assert(seg_views(r@) =~= seg_views(r_pre).push(cur_pre));
                assert(split_acc(s@, i as int, cur_pre) == seq![cur_pre] + split_acc(
                    s@,
                    i + 1,
                    Seq::empty(),
                ));
                assert(seg_views(r_pre) + (seq![cur_pre] + split_acc(s@, i + 1, Seq::empty()))
                    =~= seg_views(r_pre).push(cur_pre) + split_acc(s@, i + 1, Seq::empty()));
            }
        } else {
            cur.push(b);
        }
        i = i + 1;
    }
    let ghost r_pre = r@;
    r.push(cur);
    proof {
        assert(split_acc(s@, i as int, cur@) =~= seq![cur@]);
        assert(seg_views(r@) =~= seg_views(r_pre).push(cur@));
        assert(seg_views(r_pre).push(cur@) =~= seg_views(r_pre) + seq![cur@]);
        assert(seg_views(r@) =~= split_slash(s@));
    }
    r
}

/// Join segments with `/` separators.
pub fn join_segs_exec(segs: &Vec<Vec<u8>>) -> (r: Vec<u8>)
    requires
        segs@.len() >= 1,
    ensures
        r@ == join_segs(seg_views(segs@)),
{
    let ghost gsegs = seg_views(segs@);
    proof {
        assert(gsegs.len() == segs@.len());
    }
    let mut r: Vec<u8> = Vec::new();
    let mut i: usize = 0;
    while i < segs.len()
        invariant
            i <= segs@.len(),
            segs@.len() >= 1,
            gsegs == seg_views(segs@),
            gsegs.len() == segs@.len(),
            i == 0 ==> r@.len() == 0,
            i > 0 ==> r@ == join_segs(gsegs.take(i as int)),
        decreases segs@.len() - i,
    {
        if i > 0 {
            r.push(47);
        }
        let seg = &segs[i];
        proof {
            assert(seg@ == gsegs[i as int]);
        }
        let mut k: usize = 0;
        let ghost rbase = r@;
        while k < seg.len()
            invariant
                k <= seg@.len(),
                r@ == rbase + seg@.take(k as int),
            decreases seg@.len() - k,
        {
            r.push(seg[k]);
            proof {
                assert(rbase + seg@.take(k + 1) =~= (rbase + seg@.take(k as int)).push(
                    seg@[k as int],
                ));
            }
            k = k + 1;
        }
        proof {
            assert(seg@.take(seg@.len() as int) =~= seg@);
            if i == 0 {
                assert(gsegs.take(1) =~= seq![gsegs[0]]);
                assert(r@ =~= join_segs(gsegs.take(1)));
            } else {
                assert(gsegs.take(i as int).push(gsegs[i as int]) =~= gsegs.take(i + 1));
                lemma_join_push(gsegs.take(i as int), gsegs[i as int]);
                assert(r@ =~= join_segs(gsegs.take(i as int)) + seq![SLASH] + gsegs[i as int]);
            }
        }
        i = i + 1;
    }
    proof {
        assert(gsegs.take(gsegs.len() as int) =~= gsegs);
    }
    r
}

/// Compare two byte strings.
pub fn bytes_eq(a: &[u8], b: &[u8]) -> (r: bool)
    ensures
        r == (a@ == b@),
{
    if a.len() != b.len() {
        return false;
    }
    let mut i: usize = 0;
    while i < a.len()
        invariant
            a@.len() == b@.len(),
            i <= a@.len(),
            forall|j: int| 0 <= j < i ==> a@[j] == b@[j],
        decreases a@.len() - i,
    {
        if a[i] != b[i] {
            return false;
        }
        i = i + 1;
    }
    proof {
        assert(a@ =~= b@);
    }
    true
}

// ---------------------------------------------------------------------------
// Bytes and characters
// ---------------------------------------------------------------------------
/// The bytes of an ASCII character sequence.
pub open spec fn ascii_bytes(s: Seq<char>) -> Seq<u8> {
    Seq::new(s.len(), |i: int| s[i] as u8)
}

/// The characters of a byte sequence, one character per byte.
pub open spec fn chars_of_bytes(b: Seq<u8>) -> Seq<char> {
    Seq::new(b.len(), |i: int| b[i] as char)
}

pub open spec fn bytes_all_ascii(b: Seq<u8>) -> bool {
    forall|i: int| 0 <= i < b.len() ==> #[trigger] b[i] < 128
}

/// For ASCII bytes the two conversions invert each other.
pub proof fn lemma_ascii_bytes_chars(b: Seq<u8>)
    requires
        bytes_all_ascii(b),
    ensures
        vstd::utf8::is_ascii_chars(chars_of_bytes(b)),
        ascii_bytes(chars_of_bytes(b)) =~= b,
{
    assert forall|i: int| 0 <= i < b.len() implies '\0' <= #[trigger] chars_of_bytes(b)[i]
        <= '\u{7f}' by {
        assert(b[i] < 128);
        assert(chars_of_bytes(b)[i] == b[i] as char);
    }
}

/// Relies on `String::from_utf8`: it succeeds exactly on valid UTF-8, and
/// the returned string is the one those bytes encode.
#[verifier::external_body]
pub fn string_from_utf8_bytes(v: Vec<u8>) -> (r: Option<String>)
    ensures
        match r {
            Some(s) => vstd::utf8::valid_utf8(v@) && vstd::utf8::encode_utf8(s@) == v@,
            None => !vstd::utf8::valid_utf8(v@),
        },
{
    String::from_utf8(v).ok()
}

/// Relies on `String::from_utf8`: ASCII bytes are valid UTF-8 and decode to
/// one character per byte.
#[verifier::external_body]
pub fn string_from_ascii_bytes(v: Vec<u8>) -> (r: String)
    requires
        bytes_all_ascii(v@),
    ensures
        r@ == chars_of_bytes(v@),
{
    String::from_utf8(v).unwrap()
}

/// Joining keeps bytes ASCII and introduces `/` only as a separator.
pub proof fn lemma_join_ascii(segs: Seq<Seq<u8>>)
    requires
        forall|i: int| 0 <= i < segs.len() ==> bytes_all_ascii(#[trigger] segs[i]),
    ensures
        bytes_all_ascii(join_segs(segs)),
    decreases segs.len(),
{
    if segs.len() <= 1 {
    } else {
        assert(forall|i: int|
            0 <= i < segs.drop_first().len() ==> bytes_all_ascii(
                #[trigger] segs.drop_first()[i],
            ));
        lemma_join_ascii(segs.drop_first());
        let j = join_segs(segs);
        assert forall|i: int| 0 <= i < j.len() implies #[trigger] j[i] < 128 by {
            let head = segs[0];
            if i < head.len() {
                assert(j[i] == head[i]);
            } else if i == head.len() {
                assert(j[i] == SLASH);
            } else {
                assert(j[i] == join_segs(segs.drop_first())[i - head.len() - 1]);
            }
        }
    }
}

/// What a key segment means when read as an escaped UTF-8 name.
pub open spec fn seg_to_str(seg: Seq<u8>) -> Option<Seq<char>> {
    match unescape_bytes(seg) {
        Some(b) => if vstd::utf8::valid_utf8(b) {
            Some(vstd::utf8::decode_utf8(b))
        } else {
            None
        },
        None => None,
    }
}

/// What a key segment means when read as a decimal number.
pub open spec fn seg_to_u64(seg: Seq<u8>) -> Option<u64> {
    if seg.len() > 0 && all_dec(seg) && dec_val(seg) <= u64::MAX {
        Some(dec_val(seg) as u64)
    } else {
        None
    }
}

// ---------------------------------------------------------------------------
// Builder and parser
// ---------------------------------------------------------------------------
/// A segment usable in a key: ASCII bytes, none of them `/`.
pub open spec fn seg_wf(seg: Seq<u8>) -> bool {
    bytes_all_ascii(seg) && seg_no_slash(seg)
}

pub open spec fn segs_wf(segs: Seq<Seq<u8>>) -> bool {
    forall|i: int| 0 <= i < segs.len() ==> seg_wf(#[trigger] segs[i])
}

/// Accumulates the segments of a key, then renders them as one string.
pub struct KeyBuilder {
    segs: Vec<Vec<u8>>,
}

impl View for KeyBuilder {
    type V = Seq<Seq<u8>>;

    closed spec fn view(&self) -> Seq<Seq<u8>> {
        seg_views(self.segs@)
    }
}

impl KeyBuilder {
    pub open spec fn wf(&self) -> bool {
        segs_wf(self@)
    }

    /// Start a key from its raw prefix segment.
    pub fn new_prefixed(prefix: &str) -> (b: KeyBuilder)
        requires
            prefix.is_ascii(),
            seg_no_slash(ascii_bytes(prefix@)),
        ensures
            b@ == seq![ascii_bytes(prefix@)],
            b.wf(),
    {
        proof {
            vstd::string::is_ascii_spec_bytes(prefix);
            assert(prefix.spec_bytes() =~= ascii_bytes(prefix@));
            vstd::utf8::is_ascii_chars_nat_bound(prefix@);
            assert(bytes_all_ascii(ascii_bytes(prefix@)));
        }
        let bytes = prefix.as_bytes_vec();
        let mut segs: Vec<Vec<u8>> = Vec::new();
        segs.push(bytes);
        proof {
            assert(seg_views(segs@) =~= seq![ascii_bytes(prefix@)]);
        }
        KeyBuilder { segs }
    }

    /// Append one escaped name segment.
    pub fn push_escaped(self, s: &str) -> (r: KeyBuilder)
        ensures
            r@ == self@.push(escape_bytes(s.spec_bytes())),
            self.wf() ==> r.wf(),
    {
        let bytes = s.as_bytes_vec();
        let esc = escape_bytes_exec(bytes.as_slice());
        let mut segs = self.segs;
        let ghost pre = seg_views(segs@);
        segs.push(esc);
        proof {
            assert(seg_views(segs@) =~= pre.push(escape_bytes(s.spec_bytes())));
            lemma_escape_bytes_ascii(s.spec_bytes());
        }
        KeyBuilder { segs }
    }

    /// Append one decimal number segment.
    pub fn push_u64(self, n: u64) -> (r: KeyBuilder)
        ensures
            r@ == self@.push(dec_digits(n as nat)),
            self.wf() ==> r.wf(),
    {
        let mut buf: Vec<u8> = Vec::new();
        push_dec_u64(&mut buf, n);
        let mut segs = self.segs;
        let ghost pre = seg_views(segs@);
        segs.push(buf);
        proof {
            assert(seg_views(segs@) =~= pre.push(dec_digits(n as nat)));
            lemma_dec_digits_wf(n as nat);
        }
        KeyBuilder { segs }
    }

    /// Render the key as `seg/seg/.../seg`.
    pub fn done(self) -> (r: String)
        requires
            self@.len() >= 1,
            self.wf(),
        ensures
            r@ == chars_of_bytes(join_segs(self@)),
            ascii_bytes(r@) == join_segs(self@),
            vstd::utf8::is_ascii_chars(r@),
    {
        proof {
            assert(forall|i: int| 0 <= i < self@.len() ==> bytes_all_ascii(#[trigger] self@[i]));
            lemma_join_ascii(self@);
        }
        let joined = join_segs_exec(&self.segs);
        proof {
            lemma_ascii_bytes_chars(joined@);
        }
        string_from_ascii_bytes(joined)
    }
}

/// The key string bytes of a tenant-less id key: `<prefix>/<id>`.
pub open spec fn u64_key_bytes(prefix: Seq<char>, id: u64) -> Seq<u8> {
    ascii_bytes(prefix) + seq![SLASH] + dec_digits(id as nat)
}

/// Render an id key `<prefix>/<id>`.
pub fn u64_key_string(prefix: &str, id: u64) -> (r: String)
    requires
        prefix.is_ascii(),
    ensures
        ascii_bytes(r@) == u64_key_bytes(prefix@, id),
        r@ == chars_of_bytes(u64_key_bytes(prefix@, id)),
        vstd::utf8::is_ascii_chars(r@),
{
    let mut buf = prefix.as_bytes_vec();
    buf.push(47);
    push_dec_u64(&mut buf, id);
    proof {
        vstd::string::is_ascii_spec_bytes(prefix);
        assert(prefix.spec_bytes() =~= ascii_bytes(prefix@));
        vstd::utf8::is_ascii_chars_nat_bound(prefix@);
        lemma_dec_digits_wf(id as nat);
        assert(buf@ =~= u64_key_bytes(prefix@, id));
        assert(bytes_all_ascii(buf@)) by {
            assert forall|i: int| 0 <= i < buf@.len() implies #[trigger] buf@[i] < 128 by {
                if i < prefix@.len() {
                    assert(buf@[i] == ascii_bytes(prefix@)[i]);
                } else if i == prefix@.len() {
                    assert(buf@[i] == SLASH);
                } else {
                    assert(buf@[i] == dec_digits(id as nat)[i - prefix@.len() - 1]);
                    assert(is_dec_byte(buf@[i]));
                }
            }
        }
        lemma_ascii_bytes_chars(buf@);
    }
    string_from_ascii_bytes(buf)
}

/// Read an id key `<prefix>/<id>` back; exact about every failure.
pub fn parse_u64_key(prefix: &str, s: &str) -> (r: Result<u64, KeyError>)
    ensures
        ({
            let segs = split_slash(s.spec_bytes());
            match r {
                Ok(id) => segs.len() == 2 && segs[0] == prefix.spec_bytes() && seg_to_u64(segs[1])
                    == Some(id),
                Err(_) => !(segs.len() == 2 && segs[0] == prefix.spec_bytes() && seg_to_u64(
                    segs[1],
                ) is Some),
            }
        }),
{
    let bytes = s.as_bytes_vec();
    let segs = split_slash_exec(bytes.as_slice());
    if segs.len() != 2 {
        return Err(KeyError::WrongNumberOfSegments);
    }
    let pb = prefix.as_bytes_vec();
    proof {
        assert(seg_views(segs@)[0] == segs@[0]@);
        assert(seg_views(segs@)[1] == segs@[1]@);
    }
    if !bytes_eq(segs[0].as_slice(), pb.as_slice()) {
        return Err(KeyError::WrongPrefix);
    }
    parse_dec_u64(segs[1].as_slice())
}

/// An id key splits back into its prefix and its digits.
pub proof fn lemma_u64_key_round_trip(prefix: Seq<char>, id: u64)
    requires
        vstd::utf8::is_ascii_chars(prefix),
        seg_no_slash(ascii_bytes(prefix)),
    ensures
        split_slash(u64_key_bytes(prefix, id)) =~= seq![
            ascii_bytes(prefix),
            dec_digits(id as nat),
        ],
        seg_to_u64(dec_digits(id as nat)) == Some(id),
{
    lemma_dec_digits_wf(id as nat);
    let segs = seq![ascii_bytes(prefix), dec_digits(id as nat)];
    assert(segs_no_slash(segs)) by {
        assert forall|i: int| 0 <= i < segs.len() implies seg_no_slash(#[trigger] segs[i]) by {
            if i == 1 {
                assert forall|j: int|
                    0 <= j < dec_digits(id as nat).len() implies #[trigger] dec_digits(
                    id as nat,
                )[j] != SLASH by {
                    assert(is_dec_byte(dec_digits(id as nat)[j]));
                }
            }
        }
    }
    lemma_split_join(segs);
    assert(segs.drop_first() =~= seq![dec_digits(id as nat)]);
    assert(join_segs(seq![dec_digits(id as nat)]) == dec_digits(id as nat));
    assert(join_segs(segs) == segs[0] + seq![SLASH] + join_segs(segs.drop_first()));
    assert(join_segs(segs) =~= u64_key_bytes(prefix, id));
}

/// Reads a key string segment by segment.
pub struct KeyParser {
    elements: Vec<Vec<u8>>,
    cursor: usize,
}

impl KeyParser {
    pub closed spec fn segs(&self) -> Seq<Seq<u8>> {
        seg_views(self.elements@)
    }

    pub closed spec fn pos(&self) -> int {
        self.cursor as int
    }

    pub open spec fn wf(&self) -> bool {
        0 <= self.pos() <= self.segs().len()
    }

    /// Split a key string into its segments.
    pub fn new(s: &str) -> (p: KeyParser)
        ensures
            p.segs() == split_slash(s.spec_bytes()),
            p.pos() == 0,
            p.wf(),
            p.segs().len() >= 1,
    {
        let bytes = s.as_bytes_vec();
        let elements = split_slash_exec(bytes.as_slice());
        KeyParser { elements, cursor: 0 }
    }

    /// Take the next segment as raw bytes.
    pub fn next_raw(&mut self) -> (r: Result<Vec<u8>, KeyError>)
        requires
            old(self).wf(),
        ensures
            final(self).wf(),
            final(self).segs() == old(self).segs(),
            match r {
                Ok(v) => old(self).pos() < old(self).segs().len() && v@ == old(self).segs()[old(
                    self,
                ).pos()] && final(self).pos() == old(self).pos() + 1,
                Err(_) => old(self).pos() == old(self).segs().len() && final(self).pos() == old(
                    self,
                ).pos(),
            },
    {
        if self.cursor >= self.elements.len() {
            return Err(KeyError::UnexpectedEnd);
        }
        let seg = vstd::slice::slice_to_vec(self.elements[self.cursor].as_slice());
        self.cursor = self.cursor + 1;
        proof {
            assert(seg@ == old(self).segs()[old(self).pos()]);
        }
        Ok(seg)
    }

    /// Take the next segment as an unescaped ASCII name.
    pub fn next_str(&mut self) -> (r: Result<String, KeyError>)
        requires
            old(self).wf(),
        ensures
            final(self).wf(),
            final(self).segs() == old(self).segs(),
            match r {
                Ok(v) => old(self).pos() < old(self).segs().len() && final(self).pos() == old(
                    self,
                ).pos() + 1 && seg_to_str(old(self).segs()[old(self).pos()]) == Some(v@),
                Err(_) => old(self).pos() == old(self).segs().len() || seg_to_str(
                    old(self).segs()[old(self).pos()],
                ) is None,
            },
    {
        let seg = match self.next_raw() {
            Ok(seg) => seg,
            Err(e) => {
                return Err(e);
            },
        };
        let raw = match unescape_bytes_exec(seg.as_slice()) {
            Ok(raw) => raw,
            Err(e) => {
                return Err(e);
            },
        };
        let ghost raw_bytes = raw@;
        match string_from_utf8_bytes(raw) {
            Some(s) => {
                proof {
                    vstd::utf8::encode_utf8_decode_utf8(s@);
                }
                Ok(s)
            },
            None => Err(KeyError::InvalidName),
        }
    }

    /// Take the next segment as a decimal number.
    pub fn next_u64(&mut self) -> (r: Result<u64, KeyError>)
        requires
            old(self).wf(),
        ensures
            final(self).wf(),
            final(self).segs() == old(self).segs(),
            match r {
                Ok(v) => old(self).pos() < old(self).segs().len() && final(self).pos() == old(
                    self,
                ).pos() + 1 && seg_to_u64(old(self).segs()[old(self).pos()]) == Some(v),
                Err(_) => old(self).pos() == old(self).segs().len() || seg_to_u64(
                    old(self).segs()[old(self).pos()],
                ) is None,
            },
    {
        let seg = match self.next_raw() {
            Ok(seg) => seg,
            Err(e) => {
                return Err(e);
            },
        };
        parse_dec_u64(seg.as_slice())
    }

    /// Take the next segment as a non-empty unescaped ASCII name.
    pub fn next_nonempty(&mut self) -> (r: Result<String, KeyError>)
        requires
            old(self).wf(),
        ensures
            final(self).wf(),
            final(self).segs() == old(self).segs(),
            match r {
                Ok(v) => old(self).pos() < old(self).segs().len() && final(self).pos() == old(
                    self,
                ).pos() + 1 && seg_to_str(old(self).segs()[old(self).pos()]) == Some(v@) && v@.len()
                    > 0,
                Err(_) => old(self).pos() == old(self).segs().len() || seg_to_str(
                    old(self).segs()[old(self).pos()],
                ) is None || seg_to_str(old(self).segs()[old(self).pos()]).unwrap().len() == 0,
            },
    {
        let s = match self.next_str() {
            Ok(s) => s,
            Err(e) => {
                return Err(e);
            },
        };
        if s.as_str().is_empty() {
            return Err(KeyError::EmptySegment);
        }
        Ok(s)
    }

    /// Succeeds only when every segment has been consumed.
    pub fn expect_end(&self) -> (r: Result<(), KeyError>)
        requires
            self.wf(),
        ensures
            r is Ok <==> self.pos() == self.segs().len(),
    {
        if self.cursor == self.elements.len() {
            Ok(())
        } else {
            Err(KeyError::WrongNumberOfSegments)
        }
    }
}

} // verus!
