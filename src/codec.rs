use vstd::prelude::*;
use crate::level::{LevelMarker, MarkerKind, Point};

verus! {

// A level is stored as text, one marker per line:
//
//     spawn x=0 y=260
//     goal x=45 y=-190 radius=80
//     obstacle x=0 y=-24 radius=45
//
// Numbers are written in decimal, with no leading zeros and no plus sign.

/// Largest magnitude of a number in a level record.
pub const MAX_MAGNITUDE: u64 = 0x1_0000_0000;

pub open spec fn is_digit(b: u8) -> bool {
    48 <= b <= 57
}

/// Decimal digits of `n`, most significant first.
pub open spec fn digits(n: nat) -> Seq<u8>
    decreases n,
{
    if n < 10 {
        seq![(48 + n) as u8]
    } else {
        digits(n / 10).push((48 + n % 10) as u8)
    }
}

/// The number that a string of decimal digits stands for.
pub open spec fn digits_value(s: Seq<u8>) -> nat
    decreases s.len(),
{
    if s.len() == 0 {
        0
    } else {
        digits_value(s.drop_last()) * 10 + (s.last() - 48) as nat
    }
}

pub open spec fn all_digits(s: Seq<u8>) -> bool {
    forall|i: int| 0 <= i < s.len() ==> is_digit(#[trigger] s[i])
}

/// Digits as `digits` writes them: at least one, no leading zero.
pub open spec fn canonical(s: Seq<u8>) -> bool {
    s.len() >= 1 && all_digits(s) && (s[0] != 48 || s.len() == 1)
}

/// An integer in decimal, with a minus sign when it is negative.
pub open spec fn int_text(v: int) -> Seq<u8> {
    if v < 0 {
        seq![45u8] + digits((-v) as nat)
    } else {
        digits(v as nat)
    }
}

pub open spec fn spawn_key() -> Seq<u8> {
    seq![115u8, 112u8, 97u8, 119u8, 110u8, 32u8, 120u8, 61u8]
}

pub open spec fn goal_key() -> Seq<u8> {
    seq![103u8, 111u8, 97u8, 108u8, 32u8, 120u8, 61u8]
}

pub open spec fn obstacle_key() -> Seq<u8> {
    seq![111u8, 98u8, 115u8, 116u8, 97u8, 99u8, 108u8, 101u8, 32u8, 120u8, 61u8]
}

pub open spec fn y_key() -> Seq<u8> {
    seq![32u8, 121u8, 61u8]
}

pub open spec fn radius_key() -> Seq<u8> {
    seq![32u8, 114u8, 97u8, 100u8, 105u8, 117u8, 115u8, 61u8]
}

pub open spec fn line_end() -> Seq<u8> {
    seq![10u8]
}

/// The words that open the line of a marker of kind `k`.
pub open spec fn kind_key(k: MarkerKind) -> Seq<u8> {
    match k {
        MarkerKind::PlayerSpawnPoint => spawn_key(),
        MarkerKind::EndPoint { .. } => goal_key(),
        MarkerKind::Obstacle { .. } => obstacle_key(),
    }
}

/// What follows the vertical coordinate on the line of a marker of kind `k`.
pub open spec fn kind_tail(k: MarkerKind) -> Seq<u8> {
    match k {
        MarkerKind::PlayerSpawnPoint => line_end(),
        MarkerKind::EndPoint { radius } => radius_tail(radius),
        MarkerKind::Obstacle { radius } => radius_tail(radius),
    }
}

/// The end of the line of a marker with a radius.
pub open spec fn radius_tail(r: u32) -> Seq<u8> {
    radius_key() + (int_text(r as int) + line_end())
}

/// The two coordinates of a point, as a line holds them.
pub open spec fn coords_text(p: Point) -> Seq<u8> {
    int_text(p.x as int) + (y_key() + int_text(p.y as int))
}

/// The line of one marker.
pub open spec fn marker_text(m: LevelMarker) -> Seq<u8> {
    kind_key(m.kind) + (coords_text(m.pos) + kind_tail(m.kind))
}

/// The record of a level: the lines of its markers, in order.
pub open spec fn level_text(ms: Seq<LevelMarker>) -> Seq<u8>
    decreases ms.len(),
{
    if ms.len() == 0 {
        Seq::empty()
    } else {
        marker_text(ms[0]) + level_text(ms.drop_first())
    }
}

/// The markers that a record holds, where it is the record of some level.
pub open spec fn decoded(b: Seq<u8>) -> Option<Seq<LevelMarker>> {
    if exists|ms: Seq<LevelMarker>| #[trigger] level_text(ms) == b {
        Some(choose|ms: Seq<LevelMarker>| #[trigger] level_text(ms) == b)
    } else {
        None
    }
}

/// `t` stands in `b` from index `pos` on.
pub open spec fn at(b: Seq<u8>, pos: int, t: Seq<u8>) -> bool {
    0 <= pos && pos + t.len() <= b.len() && b.subrange(pos, pos + t.len()) == t
}

proof fn lemma_at_split(b: Seq<u8>, pos: int, t: Seq<u8>, u: Seq<u8>)
    requires
        at(b, pos, t + u),
    ensures
        at(b, pos, t),
        at(b, pos + t.len(), u),
{
    let w = b.subrange(pos, pos + t.len() + u.len());
    assert(w == t + u);
    assert(b.subrange(pos, pos + t.len()) =~= w.subrange(0, t.len() as int));
    assert(w.subrange(0, t.len() as int) =~= t);
    assert(b.subrange(pos + t.len(), pos + t.len() + u.len()) =~= w.subrange(
        t.len() as int,
        (t.len() + u.len()) as int,
    ));
    assert(w.subrange(t.len() as int, (t.len() + u.len()) as int) =~= u);
}

proof fn lemma_at_join(b: Seq<u8>, pos: int, t: Seq<u8>, u: Seq<u8>)
    requires
        at(b, pos, t),
        at(b, pos + t.len(), u),
    ensures
        at(b, pos, t + u),
{
    assert(b.subrange(pos, pos + t.len() + u.len()) =~= t + u);
}

proof fn lemma_digits_shape(n: nat)
    ensures
        canonical(digits(n)),
        digits_value(digits(n)) == n,
        n >= 1 ==> digits(n)[0] != 48,
    decreases n,
{
    if n >= 10 {
        lemma_digits_shape(n / 10);
        let d = digits(n);
        assert(d.drop_last() =~= digits(n / 10));
        assert(d.last() == (48 + n % 10) as u8);
        assert(digits_value(d) == (n / 10) * 10 + n % 10);
        assert(d[0] == digits(n / 10)[0]);
        assert forall|i: int| 0 <= i < d.len() implies is_digit(#[trigger] d[i]) by {
            if i < d.len() - 1 {
                assert(d[i] == digits(n / 10)[i]);
            }
        }
    } else {
        assert(digits(n).drop_last() =~= Seq::<u8>::empty());
        assert(digits_value(digits(n)) == digits_value(Seq::<u8>::empty()) * 10 + n);
    }
}

proof fn lemma_value_prefix(s: Seq<u8>, k: int)
    requires
        all_digits(s),
        0 <= k <= s.len(),
    ensures
        digits_value(s.take(k)) <= digits_value(s),
    decreases s.len(),
{
    if k < s.len() {
        let init = s.drop_last();
        assert(init.take(k) =~= s.take(k));
        assert(all_digits(init)) by {
            assert forall|i: int| 0 <= i < init.len() implies is_digit(#[trigger] init[i]) by {
                assert(init[i] == s[i]);
            }
        }
        lemma_value_prefix(init, k);
    } else {
        assert(s.take(k) =~= s);
    }
}

proof fn lemma_canonical_digits(s: Seq<u8>)
    requires
        canonical(s),
    ensures
        digits(digits_value(s)) == s,
    decreases s.len(),
{
    if s.len() == 1 {
        assert(s.drop_last() =~= Seq::<u8>::empty());
        assert(is_digit(s[0]));
        assert(digits(digits_value(s)) =~= s);
    } else {
        let init = s.drop_last();
        assert(is_digit(s[s.len() - 1]));
        assert(canonical(init)) by {
            assert(init[0] == s[0]);
            assert forall|i: int| 0 <= i < init.len() implies is_digit(#[trigger] init[i]) by {
                assert(init[i] == s[i]);
            }
        }
        lemma_canonical_digits(init);
        lemma_value_prefix(init, 1);
        assert(init.take(1) =~= seq![s[0]]);
        assert(seq![s[0]].drop_last() =~= Seq::<u8>::empty());
        assert(digits_value(init) >= 1);
        let v = digits_value(s);
        assert(v / 10 == digits_value(init) && v % 10 == s.last() - 48);
        assert(digits(v) =~= s);
    }
}

/// Appends the decimal digits of `n`.
fn write_digits(out: &mut Vec<u8>, n: u64)
    ensures
        final(out)@ == old(out)@ + digits(n as nat),
    decreases n,
{
    if n >= 10 {
        write_digits(out, n / 10);
    }
    out.push((48 + n % 10) as u8);
    proof {
        if n >= 10 {
            assert(final(out)@ =~= old(out)@ + digits(n as nat));
        } else {
            assert(final(out)@ =~= old(out)@ + digits(n as nat));
        }
    }
}

/// Appends `v` in decimal.
fn write_int(out: &mut Vec<u8>, v: i64)
    requires
        v > i64::MIN,
    ensures
        final(out)@ == old(out)@ + int_text(v as int),
{
    if v < 0 {
        out.push(45u8);
        write_digits(out, (-v) as u64);
        assert(final(out)@ =~= old(out)@ + int_text(v as int));
    } else {
        write_digits(out, v as u64);
    }
}

fn write_bytes(out: &mut Vec<u8>, t: &Vec<u8>)
    ensures
        final(out)@ == old(out)@ + t@,
{
    let ghost start = out@;
    let mut i: usize = 0;
    while i < t.len()
        invariant
            i <= t@.len(),
            out@ == start + t@.take(i as int),
        decreases t@.len() - i,
    {
        out.push(t[i]);
        i += 1;
        assert(out@ =~= start + t@.take(i as int));
    }
    assert(t@.take(i as int) =~= t@);
}

fn spawn_key_bytes() -> (r: Vec<u8>)
    ensures
        r@ == spawn_key(),
{
    let r: Vec<u8> = vec![115u8, 112u8, 97u8, 119u8, 110u8, 32u8, 120u8, 61u8];
    assert(r@ =~= spawn_key());
    r
}

fn goal_key_bytes() -> (r: Vec<u8>)
    ensures
        r@ == goal_key(),
{
    let r: Vec<u8> = vec![103u8, 111u8, 97u8, 108u8, 32u8, 120u8, 61u8];
    assert(r@ =~= goal_key());
    r
}

fn obstacle_key_bytes() -> (r: Vec<u8>)
    ensures
        r@ == obstacle_key(),
{
    let r: Vec<u8> = vec![111u8, 98u8, 115u8, 116u8, 97u8, 99u8, 108u8, 101u8, 32u8, 120u8, 61u8];
    assert(r@ =~= obstacle_key());
    r
}

fn y_key_bytes() -> (r: Vec<u8>)
    ensures
        r@ == y_key(),
{
    let r: Vec<u8> = vec![32u8, 121u8, 61u8];
    assert(r@ =~= y_key());
    r
}

fn radius_key_bytes() -> (r: Vec<u8>)
    ensures
        r@ == radius_key(),
{
    let r: Vec<u8> = vec![32u8, 114u8, 97u8, 100u8, 105u8, 117u8, 115u8, 61u8];
    assert(r@ =~= radius_key());
    r
}

fn kind_key_bytes(k: MarkerKind) -> (r: Vec<u8>)
    ensures
        r@ == kind_key(k),
{
    match k {
        MarkerKind::PlayerSpawnPoint => spawn_key_bytes(),
        MarkerKind::EndPoint { .. } => goal_key_bytes(),
        MarkerKind::Obstacle { .. } => obstacle_key_bytes(),
    }
}

/// Appends the line of `m`.
fn write_marker(out: &mut Vec<u8>, m: &LevelMarker)
    ensures
        final(out)@ == old(out)@ + marker_text(*m),
{
    let ghost start = out@;
    write_bytes(out, &kind_key_bytes(m.kind));
    let ghost mid = out@;
    write_int(out, m.pos.x as i64);
    write_bytes(out, &y_key_bytes());
    write_int(out, m.pos.y as i64);
    assert(out@ =~= mid + coords_text(m.pos));
    match m.kind {
        MarkerKind::PlayerSpawnPoint => {},
        MarkerKind::EndPoint { radius } => {
            write_bytes(out, &radius_key_bytes());
            write_int(out, radius as i64);
        },
        MarkerKind::Obstacle { radius } => {
            write_bytes(out, &radius_key_bytes());
            write_int(out, radius as i64);
        },
    }
    out.push(10u8);
    assert(out@ =~= start + marker_text(*m));
}

proof fn lemma_level_text_append(a: Seq<LevelMarker>, b: Seq<LevelMarker>)
    ensures
        level_text(a + b) == level_text(a) + level_text(b),
    decreases a.len(),
{
    if a.len() == 0 {
        assert(a + b =~= b);
        assert(level_text(a) + level_text(b) =~= level_text(b));
    } else {
        assert((a + b).drop_first() =~= a.drop_first() + b);
        lemma_level_text_append(a.drop_first(), b);
        assert(level_text(a + b) =~= level_text(a) + level_text(b));
    }
}

proof fn lemma_level_text_push(a: Seq<LevelMarker>, m: LevelMarker)
    ensures
        level_text(a.push(m)) == level_text(a) + marker_text(m),
{
    lemma_level_text_append(a, seq![m]);
    assert(a + seq![m] =~= a.push(m));
    assert(seq![m].drop_first() =~= Seq::<LevelMarker>::empty());
    assert(seq![m][0] == m);
    assert(level_text(Seq::<LevelMarker>::empty()) == Seq::<u8>::empty());
    assert(level_text(seq![m]) == marker_text(m) + level_text(Seq::<LevelMarker>::empty()));
    assert(level_text(seq![m]) =~= marker_text(m));
}

/// The record of a level that holds `markers`, in their order.
pub fn encode_level(markers: &Vec<LevelMarker>) -> (r: Vec<u8>)
    ensures
        r@ == level_text(markers@),
{
    let mut out: Vec<u8> = Vec::new();
    let mut i: usize = 0;
    while i < markers.len()
        invariant
            i <= markers@.len(),
            out@ == level_text(markers@.take(i as int)),
        decreases markers@.len() - i,
    {
        proof {
            lemma_level_text_push(markers@.take(i as int), markers@[i as int]);
            assert(markers@.take(i as int).push(markers@[i as int]) =~= markers@.take(i + 1));
        }
        write_marker(&mut out, &markers[i]);
        i += 1;
    }
    assert(markers@.take(i as int) =~= markers@);
    out
}

proof fn lemma_at_index(b: Seq<u8>, pos: int, t: Seq<u8>, i: int)
    requires
        at(b, pos, t),
        0 <= i < t.len(),
    ensures
        b[pos + i] == t[i],
{
    assert(b.subrange(pos, pos + t.len())[i] == b[pos + i]);
}

proof fn lemma_keys_distinct(b: Seq<u8>, pos: int, k: MarkerKind)
    requires
        at(b, pos, kind_key(k)),
    ensures
        at(b, pos, spawn_key()) ==> k is PlayerSpawnPoint,
        at(b, pos, goal_key()) ==> k is EndPoint,
        at(b, pos, obstacle_key()) ==> k is Obstacle,
{
    lemma_at_index(b, pos, kind_key(k), 0);
    if at(b, pos, spawn_key()) {
        lemma_at_index(b, pos, spawn_key(), 0);
    }
    if at(b, pos, goal_key()) {
        lemma_at_index(b, pos, goal_key(), 0);
    }
    if at(b, pos, obstacle_key()) {
        lemma_at_index(b, pos, obstacle_key(), 0);
    }
}

/// Whether `t` stands in `buf` from `pos` on.
fn expect_bytes(buf: &Vec<u8>, pos: usize, t: &Vec<u8>) -> (r: bool)
    ensures
        r == at(buf@, pos as int, t@),
{
    if pos > buf.len() || t.len() > buf.len() - pos {
        return false;
    }
    let n: usize = buf.len();
    let mut i: usize = 0;
    while i < t.len()
        invariant
            n == buf@.len(),
            pos + t@.len() <= buf@.len(),
            i <= t@.len(),
            forall|j: int| 0 <= j < i ==> buf@[pos + j] == t@[j],
        decreases t@.len() - i,
    {
        if buf[pos + i] != t[i] {
            assert(buf@.subrange(pos as int, pos + t@.len())[i as int] == buf@[pos + i]);
            return false;
        }
        i += 1;
    }
    assert(buf@.subrange(pos as int, pos + t@.len()) =~= t@);
    true
}

/// Reads a number in decimal at `pos`: a run of digits with no leading zero,
/// of magnitude at most `MAX_MAGNITUDE`. Where the digits of a number `n`
/// stand there, followed by something else than a digit, that is what it
/// reads.
fn parse_nat(buf: &Vec<u8>, pos: usize, Ghost(target): Ghost<Option<nat>>) -> (r: Option<(u64, usize)>)
    requires
        pos <= buf@.len(),
        target matches Some(n) ==> {
            &&& n <= MAX_MAGNITUDE
            &&& at(buf@, pos as int, digits(n))
            &&& pos + digits(n).len() < buf@.len()
            &&& !is_digit(buf@[pos + digits(n).len()])
        },
    ensures
        r matches Some((v, e)) ==> {
            &&& v <= MAX_MAGNITUDE
            &&& at(buf@, pos as int, digits(v as nat))
            &&& e == pos + digits(v as nat).len()
        },
        target matches Some(n) ==> r == Some((n as u64, (pos + digits(n).len()) as usize)),
{
    proof {
        if let Some(n) = target {
            lemma_digits_shape(n);
        }
    }
    let mut i: usize = pos;
    let mut v: u64 = 0;
    while i < buf.len() && 48 <= buf[i] && buf[i] <= 57
        invariant
            pos <= i <= buf@.len(),
            all_digits(buf@.subrange(pos as int, i as int)),
            v as nat == digits_value(buf@.subrange(pos as int, i as int)),
            v <= MAX_MAGNITUDE,
            target matches Some(n) ==> {
                &&& n <= MAX_MAGNITUDE
                &&& at(buf@, pos as int, digits(n))
                &&& pos + digits(n).len() < buf@.len()
                &&& !is_digit(buf@[pos + digits(n).len()])
                &&& canonical(digits(n))
                &&& digits_value(digits(n)) == n
                &&& i <= pos + digits(n).len()
                &&& buf@.subrange(pos as int, i as int) == digits(n).take(i - pos)
            },
        decreases buf@.len() - i,
    {
        let ghost sub = buf@.subrange(pos as int, i + 1);
        proof {
            assert(sub.drop_last() =~= buf@.subrange(pos as int, i as int));
            assert(sub.last() == buf@[i as int]);
            if let Some(n) = target {
                if i == pos + digits(n).len() {
                    assert(false);
                }
                lemma_at_index(buf@, pos as int, digits(n), i - pos);
                assert(sub =~= digits(n).take(i + 1 - pos));
                lemma_value_prefix(digits(n), i + 1 - pos);
            }
        }
        let nv: u64 = v * 10 + (buf[i] - 48) as u64;
        if nv > MAX_MAGNITUDE {
            return None;
        }
        v = nv;
        i += 1;
        proof {
            assert(all_digits(sub)) by {
                assert forall|j: int| 0 <= j < sub.len() implies is_digit(#[trigger] sub[j]) by {
                    if j < sub.len() - 1 {
                        assert(sub[j] == buf@.subrange(pos as int, i - 1)[j]);
                    }
                }
            }
        }
    }
    let ghost run = buf@.subrange(pos as int, i as int);
    proof {
        if let Some(n) = target {
            if i < pos + digits(n).len() {
                lemma_at_index(buf@, pos as int, digits(n), i - pos);
            }
            assert(digits(n).take(digits(n).len() as int) =~= digits(n));
            assert(run == digits(n));
        }
    }
    if i == pos {
        return None;
    }
    if buf[pos] == 48 && i > pos + 1 {
        assert(run[0] == buf@[pos as int]);
        return None;
    }
    proof {
        assert(run[0] == buf@[pos as int]);
        lemma_canonical_digits(run);
    }
    Some((v, i))
}

/// Reads an integer in decimal at `pos`, as `int_text` writes it, of
/// magnitude at most `MAX_MAGNITUDE`.
fn parse_int(buf: &Vec<u8>, pos: usize, Ghost(target): Ghost<Option<int>>) -> (r: Option<(i64, usize)>)
    requires
        pos <= buf@.len(),
        target matches Some(n) ==> {
            &&& -MAX_MAGNITUDE <= n <= MAX_MAGNITUDE
            &&& at(buf@, pos as int, int_text(n))
            &&& pos + int_text(n).len() < buf@.len()
            &&& !is_digit(buf@[pos + int_text(n).len()])
        },
    ensures
        r matches Some((v, e)) ==> {
            &&& -MAX_MAGNITUDE <= v <= MAX_MAGNITUDE
            &&& at(buf@, pos as int, int_text(v as int))
            &&& e == pos + int_text(v as int).len()
        },
        target matches Some(n) ==> r == Some((n as i64, (pos + int_text(n).len()) as usize)),
{
    proof {
        if let Some(n) = target {
            lemma_digits_shape(if n < 0 { (-n) as nat } else { n as nat });
            lemma_at_index(buf@, pos as int, int_text(n), 0);
            if n < 0 {
                lemma_at_split(buf@, pos as int, seq![45u8], digits((-n) as nat));
            }
        }
    }
    if pos < buf.len() && buf[pos] == 45 {
        let ghost t: Option<nat> = match target {
            Some(n) => Some((-n) as nat),
            None => None,
        };
        match parse_nat(buf, pos + 1, Ghost(t)) {
            Some((m, e)) => {
                if m == 0 {
                    return None;
                }
                proof {
                    assert(at(buf@, pos as int, seq![45u8])) by {
                        assert(buf@.subrange(pos as int, pos + 1) =~= seq![45u8]);
                    }
                    lemma_at_join(buf@, pos as int, seq![45u8], digits(m as nat));
                    assert(int_text(-(m as int)) =~= seq![45u8] + digits(m as nat));
                }
                Some((-(m as i64), e))
            },
            None => None,
        }
    } else {
        match parse_nat(buf, pos, Ghost(
            match target {
                Some(n) => Some(n as nat),
                None => None,
            },
        )) {
            Some((m, e)) => Some((m as i64, e)),
            None => None,
        }
    }
}

fn line_end_bytes() -> (r: Vec<u8>)
    ensures
        r@ == line_end(),
{
    let r: Vec<u8> = vec![10u8];
    assert(r@ =~= line_end());
    r
}

/// Reads the two coordinates of a point at `pos`.
fn parse_coords(buf: &Vec<u8>, pos: usize, Ghost(target): Ghost<Option<Point>>) -> (r: Option<
    (Point, usize),
>)
    requires
        pos <= buf@.len(),
        target matches Some(p) ==> {
            &&& at(buf@, pos as int, coords_text(p))
            &&& pos + coords_text(p).len() < buf@.len()
            &&& !is_digit(buf@[pos + coords_text(p).len()])
        },
    ensures
        r matches Some((p, e)) ==> at(buf@, pos as int, coords_text(p)) && e == pos
            + coords_text(p).len(),
        target matches Some(p) ==> r == Some((p, (pos + coords_text(p).len()) as usize)),
{
    let blen: usize = buf.len();
    proof {
        if let Some(p) = target {
            let xs = int_text(p.x as int);
            lemma_at_split(buf@, pos as int, xs, y_key() + int_text(p.y as int));
            lemma_at_split(buf@, pos + xs.len(), y_key(), int_text(p.y as int));
            lemma_at_index(buf@, pos + xs.len(), y_key(), 0);
        }
    }
    let (x, p2) = match parse_int(buf, pos, Ghost(
        match target {
            Some(p) => Some(p.x as int),
            None => None,
        },
    )) {
        Some(v) => v,
        None => {
            return None;
        },
    };
    if x < -2147483648 || x > 2147483647 {
        return None;
    }
    if !expect_bytes(buf, p2, &y_key_bytes()) {
        return None;
    }
    assert(p2 + 3 <= blen);
    let p3: usize = p2 + 3;
    let (y, p4) = match parse_int(buf, p3, Ghost(
        match target {
            Some(p) => Some(p.y as int),
            None => None,
        },
    )) {
        Some(v) => v,
        None => {
            return None;
        },
    };
    if y < -2147483648 || y > 2147483647 {
        return None;
    }
    let pt = Point { x: x as i32, y: y as i32 };
    proof {
        lemma_at_join(buf@, p2 as int, y_key(), int_text(y as int));
        lemma_at_join(buf@, pos as int, int_text(x as int), y_key() + int_text(y as int));
    }
    Some((pt, p4))
}

/// Reads the end of the line of a marker with a radius at `pos`.
fn parse_radius_tail(buf: &Vec<u8>, pos: usize, Ghost(target): Ghost<Option<u32>>) -> (r: Option<
    (u32, usize),
>)
    requires
        pos <= buf@.len(),
        target matches Some(v) ==> at(buf@, pos as int, radius_tail(v)),
    ensures
        r matches Some((v, e)) ==> at(buf@, pos as int, radius_tail(v)) && e == pos
            + radius_tail(v).len(),
        target matches Some(v) ==> r == Some((v, (pos + radius_tail(v).len()) as usize)),
{
    let blen: usize = buf.len();
    proof {
        if let Some(v) = target {
            let rs = int_text(v as int);
            lemma_at_split(buf@, pos as int, radius_key(), rs + line_end());
            lemma_at_split(buf@, pos + 8, rs, line_end());
            lemma_at_index(buf@, pos + 8 + rs.len(), line_end(), 0);
        }
    }
    if !expect_bytes(buf, pos, &radius_key_bytes()) {
        return None;
    }
    assert(pos + 8 <= blen);
    let p1: usize = pos + 8;
    let (v, p2) = match parse_int(buf, p1, Ghost(
        match target {
            Some(v) => Some(v as int),
            None => None,
        },
    )) {
        Some(x) => x,
        None => {
            return None;
        },
    };
    if v < 0 || v > 4294967295 {
        return None;
    }
    if !expect_bytes(buf, p2, &line_end_bytes()) {
        return None;
    }
    proof {
        lemma_at_join(buf@, p1 as int, int_text(v as int), line_end());
        lemma_at_join(buf@, pos as int, radius_key(), int_text(v as int) + line_end());
    }
    Some((v as u32, p2 + 1))
}

pub open spec fn kind_radius(k: MarkerKind) -> u32 {
    match k {
        MarkerKind::PlayerSpawnPoint => 0,
        MarkerKind::EndPoint { radius } => radius,
        MarkerKind::Obstacle { radius } => radius,
    }
}

/// Reads the line of one marker at `pos`, and where the next line begins.
fn parse_marker(buf: &Vec<u8>, pos: usize, Ghost(target): Ghost<Option<LevelMarker>>) -> (r: Option<
    (LevelMarker, usize),
>)
    requires
        pos <= buf@.len(),
        target matches Some(m) ==> at(buf@, pos as int, marker_text(m)),
    ensures
        r matches Some((m, e)) ==> at(buf@, pos as int, marker_text(m)) && e == pos
            + marker_text(m).len(),
        target matches Some(m) ==> r == Some((m, (pos + marker_text(m).len()) as usize)),
{
    let blen: usize = buf.len();
    proof {
        if let Some(m) = target {
            let kk = kind_key(m.kind);
            let cs = coords_text(m.pos);
            lemma_at_split(buf@, pos as int, kk, cs + kind_tail(m.kind));
            lemma_at_split(buf@, pos + kk.len(), cs, kind_tail(m.kind));
            lemma_at_index(buf@, pos + kk.len() + cs.len(), kind_tail(m.kind), 0);
            lemma_keys_distinct(buf@, pos as int, m.kind);
        }
    }
    let spawn = expect_bytes(buf, pos, &spawn_key_bytes());
    let goal = expect_bytes(buf, pos, &goal_key_bytes());
    let obstacle = expect_bytes(buf, pos, &obstacle_key_bytes());
    let key_len: usize = if spawn {
        8
    } else if goal {
        7
    } else if obstacle {
        11
    } else {
        return None;
    };
    assert(pos + key_len <= blen);
    let p1: usize = pos + key_len;
    let (pt, p2) = match parse_coords(buf, p1, Ghost(
        match target {
            Some(m) => Some(m.pos),
            None => None,
        },
    )) {
        Some(v) => v,
        None => {
            return None;
        },
    };
    if spawn {
        if !expect_bytes(buf, p2, &line_end_bytes()) {
            return None;
        }
        let m = LevelMarker { kind: MarkerKind::PlayerSpawnPoint, pos: pt };
        proof {
            lemma_at_join(buf@, p1 as int, coords_text(pt), line_end());
            lemma_at_join(buf@, pos as int, spawn_key(), coords_text(pt) + line_end());
        }
        return Some((m, p2 + 1));
    }
    let (rv, p3) = match parse_radius_tail(buf, p2, Ghost(
        match target {
            Some(m) => Some(kind_radius(m.kind)),
            None => None,
        },
    )) {
        Some(v) => v,
        None => {
            return None;
        },
    };
    let kind = if goal {
        MarkerKind::EndPoint { radius: rv }
    } else {
        MarkerKind::Obstacle { radius: rv }
    };
    let m = LevelMarker { kind, pos: pt };
    proof {
        assert(kind_tail(kind) == radius_tail(rv));
        lemma_at_join(buf@, p1 as int, coords_text(pt), radius_tail(rv));
        lemma_at_join(buf@, pos as int, kind_key(kind), coords_text(pt) + radius_tail(rv));
    }
    Some((m, p3))
}

/// Reads a level record: the markers of its lines, in order, or `None`
/// where the text is not the record of any level.
pub fn decode_level(buf: &Vec<u8>) -> (r: Option<Vec<LevelMarker>>)
    ensures
        match r {
            Some(v) => decoded(buf@) == Some(v@),
            None => decoded(buf@) is None,
        },
{
    let ghost target = decoded(buf@);
    let mut out: Vec<LevelMarker> = Vec::new();
    let mut pos: usize = 0;
    proof {
        assert(buf@.subrange(0, 0) =~= level_text(out@));
    }
    while pos < buf.len()
        invariant
            pos <= buf@.len(),
            at(buf@, 0, level_text(out@)),
            pos == level_text(out@).len(),
            target == decoded(buf@),
            target matches Some(ms) ==> {
                &&& level_text(ms) == buf@
                &&& out@.len() <= ms.len()
                &&& out@ == ms.take(out@.len() as int)
            },
        decreases buf@.len() - pos,
    {
        let ghost k = out@.len() as int;
        let ghost tm: Option<LevelMarker> = match target {
            Some(ms) => if k < ms.len() {
                Some(ms[k])
            } else {
                None
            },
            None => None,
        };
        proof {
            if let Some(ms) = target {
                assert(ms =~= ms.take(k) + ms.skip(k));
                lemma_level_text_append(ms.take(k), ms.skip(k));
                if k == ms.len() {
                    assert(ms.skip(k) =~= Seq::<LevelMarker>::empty());
                    assert(false);
                }
                let rest = ms.skip(k);
                assert(rest[0] == ms[k]);
                assert(level_text(rest) == marker_text(ms[k]) + level_text(rest.drop_first()));
                assert(at(buf@, 0, level_text(ms.take(k)) + level_text(rest))) by {
                    assert(buf@.subrange(0, buf@.len() as int) =~= buf@);
                }
                lemma_at_split(buf@, 0, level_text(ms.take(k)), level_text(rest));
                lemma_at_split(buf@, pos as int, marker_text(ms[k]), level_text(rest.drop_first()));
            }
        }
        match parse_marker(buf, pos, Ghost(tm)) {
            Some((m, e)) => {
                proof {
                    lemma_level_text_push(out@, m);
                    lemma_at_join(buf@, 0, level_text(out@), marker_text(m));
                    if let Some(ms) = target {
                        assert(out@.push(m) =~= ms.take(k + 1));
                    }
                }
                out.push(m);
                pos = e;
            },
            None => {
                return None;
            },
        }
    }
    proof {
        assert(level_text(out@) =~= buf@);
        assert(exists|ms: Seq<LevelMarker>| #[trigger] level_text(ms) == buf@);
        let ms = target->Some_0;
        let k = out@.len() as int;
        if k < ms.len() {
            assert(ms =~= ms.take(k) + ms.skip(k));
            lemma_level_text_append(ms.take(k), ms.skip(k));
            assert(ms.skip(k)[0] == ms[k]);
        }
        assert(out@ =~= ms);
    }
    Some(out)
}

proof fn lemma_digits_unique(b: Seq<u8>, q: int, a: nat, c: nat)
    requires
        at(b, q, digits(a)),
        at(b, q, digits(c)),
        q + digits(a).len() < b.len() ==> !is_digit(b[q + digits(a).len()]),
        q + digits(c).len() < b.len() ==> !is_digit(b[q + digits(c).len()]),
    ensures
        a == c,
{
    lemma_digits_shape(a);
    lemma_digits_shape(c);
    let la = digits(a).len() as int;
    let lc = digits(c).len() as int;
    if la < lc {
        lemma_at_index(b, q, digits(c), la);
    } else if lc < la {
        lemma_at_index(b, q, digits(a), lc);
    }
    assert(digits(a) == digits(c));
}

proof fn lemma_int_unique(b: Seq<u8>, p: int, a: int, c: int)
    requires
        at(b, p, int_text(a)),
        at(b, p, int_text(c)),
        p + int_text(a).len() < b.len() ==> !is_digit(b[p + int_text(a).len()]),
        p + int_text(c).len() < b.len() ==> !is_digit(b[p + int_text(c).len()]),
    ensures
        a == c,
{
    let ma: nat = if a < 0 { (-a) as nat } else { a as nat };
    let mc: nat = if c < 0 { (-c) as nat } else { c as nat };
    lemma_digits_shape(ma);
    lemma_digits_shape(mc);
    lemma_at_index(b, p, int_text(a), 0);
    lemma_at_index(b, p, int_text(c), 0);
    if a < 0 {
        lemma_at_split(b, p, seq![45u8], digits(ma));
    }
    if c < 0 {
        lemma_at_split(b, p, seq![45u8], digits(mc));
    }
    if a < 0 && c < 0 {
        lemma_digits_unique(b, p + 1, ma, mc);
    } else if a >= 0 && c >= 0 {
        lemma_digits_unique(b, p, ma, mc);
    } else {
        assert(false);
    }
}

proof fn lemma_marker_unique(b: Seq<u8>, p: int, m1: LevelMarker, m2: LevelMarker)
    requires
        at(b, p, marker_text(m1)),
        at(b, p, marker_text(m2)),
    ensures
        m1 == m2,
{
    let k1 = kind_key(m1.kind);
    let k2 = kind_key(m2.kind);
    lemma_at_split(b, p, k1, coords_text(m1.pos) + kind_tail(m1.kind));
    lemma_at_split(b, p, k2, coords_text(m2.pos) + kind_tail(m2.kind));
    lemma_keys_distinct(b, p, m1.kind);
    lemma_keys_distinct(b, p, m2.kind);
    assert(k1 == k2);
    let o1 = p + k1.len();
    lemma_at_split(b, o1, coords_text(m1.pos), kind_tail(m1.kind));
    lemma_at_split(b, o1, coords_text(m2.pos), kind_tail(m2.kind));
    let x1 = int_text(m1.pos.x as int);
    let x2 = int_text(m2.pos.x as int);
    lemma_at_split(b, o1, x1, y_key() + int_text(m1.pos.y as int));
    lemma_at_split(b, o1, x2, y_key() + int_text(m2.pos.y as int));
    lemma_at_split(b, o1 + x1.len(), y_key(), int_text(m1.pos.y as int));
    lemma_at_split(b, o1 + x2.len(), y_key(), int_text(m2.pos.y as int));
    lemma_at_index(b, o1 + x1.len(), y_key(), 0);
    lemma_at_index(b, o1 + x2.len(), y_key(), 0);
    lemma_int_unique(b, o1, m1.pos.x as int, m2.pos.x as int);
    let o2 = o1 + x1.len() + 3;
    let y1 = int_text(m1.pos.y as int);
    let y2 = int_text(m2.pos.y as int);
    let o3 = o2 + y1.len();
    let o3b = o2 + y2.len();
    lemma_at_index(b, o3, kind_tail(m1.kind), 0);
    lemma_at_index(b, o3b, kind_tail(m2.kind), 0);
    lemma_int_unique(b, o2, m1.pos.y as int, m2.pos.y as int);
    assert(m1.pos == m2.pos);
    if !(m1.kind is PlayerSpawnPoint) {
        let r1 = kind_radius(m1.kind);
        let r2 = kind_radius(m2.kind);
        assert(kind_tail(m1.kind) == radius_tail(r1));
        assert(kind_tail(m2.kind) == radius_tail(r2));
        lemma_at_split(b, o3, radius_key(), int_text(r1 as int) + line_end());
        lemma_at_split(b, o3, radius_key(), int_text(r2 as int) + line_end());
        lemma_at_split(b, o3 + 8, int_text(r1 as int), line_end());
        lemma_at_split(b, o3 + 8, int_text(r2 as int), line_end());
        lemma_at_index(b, o3 + 8 + int_text(r1 as int).len(), line_end(), 0);
        lemma_at_index(b, o3 + 8 + int_text(r2 as int).len(), line_end(), 0);
        lemma_int_unique(b, o3 + 8, r1 as int, r2 as int);
    }
}

proof fn lemma_level_text_injective(a: Seq<LevelMarker>, c: Seq<LevelMarker>)
    requires
        level_text(a) == level_text(c),
    ensures
        a == c,
    decreases a.len(),
{
    let b = level_text(a);
    if a.len() == 0 || c.len() == 0 {
        if a.len() != 0 || c.len() != 0 {
            assert(b.len() > 0);
        }
        assert(a =~= c);
    } else {
        assert(at(b, 0, marker_text(a[0]) + level_text(a.drop_first()))) by {
            assert(b.subrange(0, b.len() as int) =~= b);
        }
        assert(at(b, 0, marker_text(c[0]) + level_text(c.drop_first()))) by {
            assert(b.subrange(0, b.len() as int) =~= b);
        }
        lemma_at_split(b, 0, marker_text(a[0]), level_text(a.drop_first()));
        lemma_at_split(b, 0, marker_text(c[0]), level_text(c.drop_first()));
        lemma_marker_unique(b, 0, a[0], c[0]);
        let l = marker_text(a[0]).len() as int;
        assert(level_text(a.drop_first()) == b.subrange(l, b.len() as int));
        assert(level_text(c.drop_first()) == b.subrange(l, b.len() as int));
        lemma_level_text_injective(a.drop_first(), c.drop_first());
        assert(a =~= seq![a[0]] + a.drop_first());
        assert(c =~= seq![c[0]] + c.drop_first());
    }
}

/// Reading back the record of a level gives that level's markers, in the
/// same order: writing and reading lose nothing.
pub proof fn lemma_round_trip(ms: Seq<LevelMarker>)
    ensures
        decoded(level_text(ms)) == Some(ms),
{
    let b = level_text(ms);
    assert(exists|x: Seq<LevelMarker>| #[trigger] level_text(x) == b);
    let c = choose|x: Seq<LevelMarker>| #[trigger] level_text(x) == b;
    lemma_level_text_injective(c, ms);
}

} // verus!
