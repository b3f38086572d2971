use vstd::prelude::*;
use vstd::set::Set;

verus! {

/// One `<digits><unit>` group of a duration such as `1w2d3h4m5s`.
const DURATION_PATTERN: &'static str = r"(?P<value>\d+)(?P<unit>[wdhms])";

/// What goes wrong in reading a duration.
#[derive(Debug, Clone, Copy, PartialEq, Eq, Structural)]
pub enum DurationError {
    /// The unit stands twice.
    Repeated(char),
    /// A value is not a run of ASCII digits that fits in 64 bits.
    InvalidNumber,
    /// A unit is none of `w`, `d`, `h`, `m`, `s`.
    UnknownUnit,
    /// The total does not fit in 64 bits of seconds.
    TooLong,
}

/// The `(value, unit)` texts of the successive non-overlapping matches of
/// the duration pattern in `s`.
pub uninterp spec fn duration_captures(s: Seq<char>) -> Seq<(Seq<char>, Seq<char>)>;

/// Relies on regex's `Regex::new` and `Regex::captures_iter`: the groups of
/// each match of the fixed, valid duration pattern, in order. Both groups
/// take part in every match, so indexing by name does not panic.
#[verifier::external_body]
fn duration_parts(s: &str) -> (r: Vec<(String, String)>)
    ensures
        r@.len() == duration_captures(s@).len(),
        forall|i: int|
            0 <= i < r@.len() ==> (#[trigger] r@[i]).0@ == duration_captures(s@)[i].0 && r@[i].1@
                == duration_captures(s@)[i].1,
{
    regex::Regex::new(DURATION_PATTERN).unwrap().captures_iter(s).map(
        |c| (c["value"].to_string(), c["unit"].to_string()),
    ).collect()
}

/// Seconds in one unit.
pub open spec fn unit_seconds(c: char) -> Option<nat> {
    if c == 'w' {
        Some(604800)
    } else if c == 'd' {
        Some(86400)
    } else if c == 'h' {
        Some(3600)
    } else if c == 'm' {
        Some(60)
    } else if c == 's' {
        Some(1)
    } else {
        None
    }
}

pub open spec fn is_digit(c: char) -> bool {
    '0' <= c && c <= '9'
}

/// The number that a run of ASCII digits writes in base ten.
pub open spec fn digits_value(s: Seq<char>) -> nat
    decreases s.len(),
{
    if s.len() == 0 {
        0
    } else {
        digits_value(s.drop_last()) * 10 + ((s.last() as u32) - ('0' as u32)) as nat
    }
}

/// The value of `s` when it is a non-empty run of ASCII digits whose value
/// fits in 64 bits.
pub open spec fn number_of(s: Seq<char>) -> Option<u64> {
    if s.len() > 0 && (forall|i: int| 0 <= i < s.len() ==> is_digit(#[trigger] s[i]))
        && digits_value(s) <= u64::MAX {
        Some(digits_value(s) as u64)
    } else {
        None
    }
}

/// The total in seconds of the first `n` groups, with the units seen; the
/// first group in order that is wrong decides the error. The total is not
/// bounded here: whether it fits is asked only of the whole.
pub open spec fn total_of(parts: Seq<(Seq<char>, Seq<char>)>, n: nat) -> Result<(nat, Set<char>), DurationError>
    decreases n,
{
    if n == 0 {
        Ok((0, Set::empty()))
    } else {
        match total_of(parts, (n - 1) as nat) {
            Err(e) => Err(e),
            Ok((total, seen)) => {
                let p = parts[n - 1];
                if number_of(p.0) is None {
                    Err(DurationError::InvalidNumber)
                } else if p.1.len() != 1 || unit_seconds(p.1[0]) is None {
                    Err(DurationError::UnknownUnit)
                } else if seen.contains(p.1[0]) {
                    Err(DurationError::Repeated(p.1[0]))
                } else {
                    Ok(((total + number_of(p.0)->0 * unit_seconds(p.1[0])->0) as nat, seen.insert(p.1[0])))
                }
            },
        }
    }
}

/// The duration in seconds that the groups `parts` write; too long only
/// when every group is right and their total does not fit in 64 bits.
pub open spec fn duration_of(parts: Seq<(Seq<char>, Seq<char>)>) -> Result<u64, DurationError> {
    match total_of(parts, parts.len()) {
        Ok((t, _)) => if t > u64::MAX {
            Err(DurationError::TooLong)
        } else {
            Ok(t as u64)
        },
        Err(e) => Err(e),
    }
}

/// A group whose unit is one of the known units, as the duration pattern
/// gives them.
pub open spec fn known_unit(p: (Seq<char>, Seq<char>)) -> bool {
    p.1.len() == 1 && unit_seconds(p.1[0]) is Some
}

/// Two groups with known units give the same duration, or the same error,
/// in either order.
pub proof fn lemma_group_order_irrelevant(p: (Seq<char>, Seq<char>), q: (Seq<char>, Seq<char>))
    requires
        known_unit(p),
        known_unit(q),
    ensures
        duration_of(seq![p, q]) == duration_of(seq![q, p]),
{
    let pq = seq![p, q];
    let qp = seq![q, p];
    assert(pq[0] == p && pq[1] == q);
    assert(qp[0] == q && qp[1] == p);
    assert(total_of(pq, 0) == Ok::<(nat, Set<char>), DurationError>((0, Set::empty())));
    assert(total_of(qp, 0) == Ok::<(nat, Set<char>), DurationError>((0, Set::empty())));
    let a = total_of(pq, 1);
    let b = total_of(qp, 1);
    let x = total_of(pq, 2);
    let y = total_of(qp, 2);
    if a is Ok && b is Ok && p.1[0] != q.1[0] {
        assert(x is Ok && y is Ok);
        assert(x->Ok_0.0 == y->Ok_0.0);
    }
}

proof fn lemma_error_stays(parts: Seq<(Seq<char>, Seq<char>)>, m: nat, n: nat)
    requires
        m <= n,
        total_of(parts, m) is Err,
    ensures
        total_of(parts, n) == total_of(parts, m),
    decreases n - m,
{
    if m < n {
        lemma_error_stays(parts, m, (n - 1) as nat);
    }
}

proof fn lemma_digits_value_grows(s: Seq<char>, i: int)
    requires
        0 <= i <= s.len(),
        forall|k: int| 0 <= k < s.len() ==> is_digit(#[trigger] s[k]),
    ensures
        digits_value(s.subrange(0, i)) <= digits_value(s),
    decreases s.len() - i,
{
    if i < s.len() {
        lemma_digits_value_grows(s, i + 1);
        let t = s.subrange(0, i + 1);
        assert(t.drop_last() =~= s.subrange(0, i));
    } else {
        assert(s.subrange(0, i) =~= s);
    }
}

/// Reads a non-empty run of ASCII digits as a 64-bit number.
pub fn read_number(s: &String) -> (r: Option<u64>)
    ensures
        r == number_of(s@),
{
    let n = s.as_str().unicode_len();
    if n == 0 {
        return None;
    }
    let mut i: usize = 0;
    while i < n
        invariant
            n == s@.len(),
            i <= n,
            forall|k: int| 0 <= k < i ==> is_digit(#[trigger] s@[k]),
        decreases n - i,
    {
        let c = s.as_str().get_char(i);
        if !('0' <= c && c <= '9') {
            return None;
        }
        i = i + 1;
    }
    let mut value: u64 = 0;
    let mut j: usize = 0;
    while j < n
        invariant
            n == s@.len(),
            j <= n,
            forall|k: int| 0 <= k < n ==> is_digit(#[trigger] s@[k]),
            value == digits_value(s@.subrange(0, j as int)),
        decreases n - j,
    {
        let c = s.as_str().get_char(j);
        let d = (c as u32 - '0' as u32) as u64;
        proof {
            let t = s@.subrange(0, j + 1);
            assert(t.drop_last() =~= s@.subrange(0, j as int));
            assert(t.last() == c);
        }
        if value > (u64::MAX - d) / 10 {
            proof {
                assert(value * 10 + d > u64::MAX) by (nonlinear_arith)
                    requires value > (u64::MAX - d) / 10, d <= 9;
                lemma_digits_value_grows(s@, j + 1);
            }
            return None;
        }
        proof {
            assert(value * 10 + d <= u64::MAX) by (nonlinear_arith)
                requires value <= (u64::MAX - d) / 10, d <= 9;
        }
        value = value * 10 + d;
        j = j + 1;
    }
    proof {
        assert(s@.subrange(0, n as int) =~= s@);
    }
    Some(value)
}

/// Seconds in one unit.
fn unit_length(c: char) -> (r: Option<u64>)
    ensures
        r is Some <==> unit_seconds(c) is Some,
        r is Some ==> r->0 == unit_seconds(c)->0,
{
    if c == 'w' {
        Some(604800)
    } else if c == 'd' {
        Some(86400)
    } else if c == 'h' {
        Some(3600)
    } else if c == 'm' {
        Some(60)
    } else if c == 's' {
        Some(1)
    } else {
        None
    }
}

fn has_char(v: &Vec<char>, c: char) -> (r: bool)
    ensures
        r == v@.to_set().contains(c),
{
    let mut k: usize = 0;
    while k < v.len()
        invariant
            k <= v@.len(),
            forall|q: int| 0 <= q < k ==> v@[q] != c,
        decreases v@.len() - k,
    {
        if v[k] == c {
            proof {
                assert(v@.to_set().contains(c));
            }
            return true;
        }
        k = k + 1;
    }
    proof {
        if v@.to_set().contains(c) {
            let q = choose|q: int| 0 <= q < v@.len() && v@[q] == c;
        }
    }
    false
}

/// Adds up `(value, unit)` groups into seconds. Each unit may stand once.
pub fn duration_from_parts(parts: &Vec<(String, String)>) -> (r: Result<u64, DurationError>)
    ensures
        r == duration_of(parts@.map_values(|p: (String, String)| (p.0@, p.1@))),
{
    let ghost ps = parts@.map_values(|p: (String, String)| (p.0@, p.1@));
    let mut total: u64 = 0;
    let mut overflow = false;
    let mut seen: Vec<char> = Vec::new();
    let mut i: usize = 0;
    proof {
        assert(seen@.to_set() =~= Set::<char>::empty());
    }
    while i < parts.len()
        invariant
            ps == parts@.map_values(|p: (String, String)| (p.0@, p.1@)),
            i <= parts@.len(),
            total_of(ps, i as nat) is Ok,
            total_of(ps, i as nat)->Ok_0.1 == seen@.to_set(),
            overflow ==> total_of(ps, i as nat)->Ok_0.0 > u64::MAX,
            !overflow ==> total_of(ps, i as nat)->Ok_0.0 == total,
        decreases parts@.len() - i,
    {
        proof {
            assert(ps[i as int] == (parts@[i as int].0@, parts@[i as int].1@));
        }
        let value = match read_number(&parts[i].0) {
            None => {
                proof {
                    lemma_error_stays(ps, (i + 1) as nat, ps.len());
                }
                return Err(DurationError::InvalidNumber);
            },
            Some(v) => v,
        };
        let unit_text = &parts[i].1;
        if unit_text.as_str().unicode_len() != 1 {
            proof {
                    lemma_error_stays(ps, (i + 1) as nat, ps.len());
                }
                return Err(DurationError::UnknownUnit);
        }
        let c = unit_text.as_str().get_char(0);
        let len = match unit_length(c) {
            None => {
                proof {
                    lemma_error_stays(ps, (i + 1) as nat, ps.len());
                }
                return Err(DurationError::UnknownUnit);
            },
            Some(l) => l,
        };
        if has_char(&seen, c) {
            proof {
                lemma_error_stays(ps, (i + 1) as nat, ps.len());
            }
            return Err(DurationError::Repeated(c));
        }
        let ghost old_seen = seen@;
        let ghost old_sum = total_of(ps, i as nat)->Ok_0.0;
        proof {
            assert(ps[i as int].1 == unit_text@);
            assert(ps[i as int].1[0] == c);
            assert(number_of(ps[i as int].0) == Some(value));
            assert(unit_seconds(c) == Some(len as nat));
            assert(!old_seen.to_set().contains(c));
            assert(total_of(ps, (i + 1) as nat) == Ok::<(nat, Set<char>), DurationError>(
                ((old_sum + value * len) as nat, old_seen.to_set().insert(c)),
            ));
            assert(value * len >= 0) by (nonlinear_arith)
                requires value >= 0, len >= 0;
        }
        if !overflow {
            if value > 0 && len > (u64::MAX - total) / value {
                proof {
                    assert(total + value * len > u64::MAX) by (nonlinear_arith)
                        requires value > 0, len > (u64::MAX - total) as int / value as int, total <= u64::MAX;
                }
                overflow = true;
            } else {
                proof {
                    assert(total + value * len <= u64::MAX) by (nonlinear_arith)
                        requires value == 0 || len <= (u64::MAX - total) as int / value as int, total <= u64::MAX;
                }
                total = total + value * len;
            }
        }
        seen.push(c);
        proof {
            assert(seen@.drop_last() == old_seen);
        }
        proof {
            assert(seen@.to_set() =~= seen@.drop_last().to_set().insert(c)) by {
                assert(seen@.drop_last() =~= seen@.subrange(0, seen@.len() - 1));
                assert forall|x: char| seen@.to_set().contains(x) <==> seen@.drop_last().to_set().insert(c).contains(x) by {
                    if seen@.to_set().contains(x) {
                        let q = choose|q: int| 0 <= q < seen@.len() && seen@[q] == x;
                        if q < seen@.len() - 1 {
                            assert(seen@.drop_last()[q] == x);
                        }
                    }
                    if seen@.drop_last().to_set().contains(x) {
                        let q = choose|q: int| 0 <= q < seen@.drop_last().len() && seen@.drop_last()[q] == x;
                        assert(seen@[q] == x);
                    }
                    if x == c {
                        assert(seen@[seen@.len() - 1] == c);
                    }
                }
            }
        }
        i = i + 1;
    }
    proof {
        assert(ps.len() == parts@.len());
    }
    if overflow {
        return Err(DurationError::TooLong);
    }
    Ok(total)
}

/// Reads a duration such as `1w2d3h4m5s` into seconds. Text between the
/// `<digits><unit>` groups is skipped; each unit may stand once.
pub fn parse_duration(duration: &str) -> (r: Result<u64, DurationError>)
    ensures
        r == duration_of(duration_captures(duration@)),
{
    let parts = duration_parts(duration);
    proof {
        assert(parts@.map_values(|p: (String, String)| (p.0@, p.1@)) =~= duration_captures(duration@));
    }
    duration_from_parts(&parts)
}

} // verus!
