use vstd::prelude::*;
use vstd::string::StrSliceExecFns;

verus! {

/// What an inbound token transfer asks for.
#[derive(Clone, Copy, Debug, PartialEq, Eq, Structural)]
pub enum TransferAction {
    /// `STAKE:<farm id>`: stake the transferred tokens.
    Stake,
    /// `ADD_REWARD:<farm id>`: top up a reward pool.
    AddReward,
}

pub open spec fn stake_tag() -> Seq<char> {
    seq!['S', 'T', 'A', 'K', 'E']
}

pub open spec fn add_reward_tag() -> Seq<char> {
    seq!['A', 'D', 'D', '_', 'R', 'E', 'W', 'A', 'R', 'D']
}

/// Index of the first ':' at or after `from`, or the length when there is none.
pub open spec fn next_colon(m: Seq<char>, from: int) -> int
    decreases m.len() - from,
{
    if from >= m.len() {
        m.len() as int
    } else if m[from] == ':' {
        from
    } else {
        next_colon(m, from + 1)
    }
}

pub open spec fn is_digit(c: char) -> bool {
    '0' <= c <= '9'
}

pub open spec fn all_digits(d: Seq<char>) -> bool {
    forall|i: int| 0 <= i < d.len() ==> is_digit(#[trigger] d[i])
}

/// Value of a string of decimal digits.
pub open spec fn digits_value(d: Seq<char>) -> int
    decreases d.len(),
{
    if d.len() == 0 {
        0
    } else {
        digits_value(d.drop_last()) * 10 + (d.last() as int - '0' as int)
    }
}

/// `t` without one leading '+'.
pub open spec fn unsigned_part(t: Seq<char>) -> Seq<char> {
    if t.len() > 0 && t[0] == '+' { t.subrange(1, t.len() as int) } else { t }
}

/// A decimal `u64` as Rust writes it: an optional '+', then one or more digits.
pub open spec fn parse_u64(t: Seq<char>) -> Option<u64> {
    let d = unsigned_part(t);
    if d.len() > 0 && all_digits(d) && digits_value(d) <= u64::MAX {
        Some(digits_value(d) as u64)
    } else {
        None
    }
}

/// Reading of a transfer message `"<ACTION>:<farm id>"`: the action is the text
/// before the first ':', the farm id the text up to the next ':' or the end.
pub open spec fn parse_message(m: Seq<char>) -> Option<(TransferAction, u64)> {
    let c1 = next_colon(m, 0);
    if c1 >= m.len() {
        None
    } else {
        let action = m.subrange(0, c1);
        match parse_u64(m.subrange(c1 + 1, next_colon(m, c1 + 1))) {
            None => None,
            Some(id) => if action == stake_tag() {
                Some((TransferAction::Stake, id))
            } else if action == add_reward_tag() {
                Some((TransferAction::AddReward, id))
            } else {
                None
            },
        }
    }
}

proof fn lemma_digits_value_nonneg(d: Seq<char>)
    requires
        all_digits(d),
    ensures
        digits_value(d) >= 0,
    decreases d.len(),
{
    if d.len() > 0 {
        assert(all_digits(d.drop_last()));
        lemma_digits_value_nonneg(d.drop_last());
        assert(is_digit(d[d.len() - 1]));
    }
}

proof fn lemma_digits_prefix_le(d: Seq<char>, k: int)
    requires
        all_digits(d),
        0 <= k <= d.len(),
    ensures
        digits_value(d.subrange(0, k)) <= digits_value(d),
    decreases d.len(),
{
    if k == d.len() {
        assert(d.subrange(0, k) =~= d);
    } else {
        let p = d.drop_last();
        assert(all_digits(p));
        lemma_digits_prefix_le(p, k);
        assert(p.subrange(0, k) =~= d.subrange(0, k));
        lemma_digits_value_nonneg(p);
        assert(is_digit(d[d.len() - 1]));
    }
}

fn chars_of(s: &String) -> (r: Vec<char>)
    ensures
        r@ == s@,
{
    let t = s.as_str();
    let n = t.unicode_len();
    let mut r: Vec<char> = Vec::new();
    let mut i: usize = 0;
    while i < n
        invariant
            n == t@.len(),
            t@ == s@,
            i <= n,
            r@ == t@.subrange(0, i as int),
        decreases n - i,
    {
        r.push(t.get_char(i));
        i = i + 1;
        assert(r@ =~= t@.subrange(0, i as int));
    }
    assert(r@ =~= t@);
    r
}

fn find_colon(m: &Vec<char>, from: usize) -> (r: usize)
    requires
        from <= m@.len(),
    ensures
        r as int == next_colon(m@, from as int),
        from <= r <= m@.len(),
{
    let mut i = from;
    while i < m.len() && m[i] != ':'
        invariant
            from <= i <= m@.len(),
            next_colon(m@, from as int) == next_colon(m@, i as int),
        decreases m@.len() - i,
    {
        i = i + 1;
    }
    i
}

fn equals_tag(m: &Vec<char>, end: usize, tag: &Vec<char>) -> (r: bool)
    requires
        end <= m@.len(),
    ensures
        r == (m@.subrange(0, end as int) == tag@),
{
    if end != tag.len() {
        assert(m@.subrange(0, end as int).len() != tag@.len());
        return false;
    }
    let mut i: usize = 0;
    while i < end
        invariant
            end == tag@.len(),
            end <= m@.len(),
            i <= end,
            forall|j: int| 0 <= j < i ==> m@[j] == tag@[j],
        decreases end - i,
    {
        if m[i] != tag[i] {
            assert(m@.subrange(0, end as int)[i as int] != tag@[i as int]);
            return false;
        }
        i = i + 1;
    }
    assert(m@.subrange(0, end as int) =~= tag@);
    true
}

/// Decimal value of `m[from..to]`, read as `parse_u64` says.
pub fn parse_farm_id(m: &Vec<char>, from: usize, to: usize) -> (r: Option<u64>)
    requires
        from <= to <= m@.len(),
    ensures
        r == parse_u64(m@.subrange(from as int, to as int)),
{
    let ghost t = m@.subrange(from as int, to as int);
    let start = if from < to && m[from] == '+' {
        from + 1
    } else {
        from
    };
    let ghost d = m@.subrange(start as int, to as int);
    assert(d =~= unsigned_part(t));
    if start == to {
        return None;
    }
    let mut k: usize = start;
    while k < to
        invariant
            start <= k <= to <= m@.len(),
            d == m@.subrange(start as int, to as int),
            d == unsigned_part(t),
            t == m@.subrange(from as int, to as int),
            forall|j: int| start <= j < k ==> is_digit(m@[j]),
        decreases to - k,
    {
        if !('0' <= m[k] && m[k] <= '9') {
            assert(!is_digit(d[k - start]));
            assert(!all_digits(d));
            return None;
        }
        k = k + 1;
    }
    assert(all_digits(d));
    let mut value: u64 = 0;
    let mut k: usize = start;
    while k < to
        invariant
            start <= k <= to <= m@.len(),
            d == m@.subrange(start as int, to as int),
            d == unsigned_part(t),
            t == m@.subrange(from as int, to as int),
            all_digits(d),
            value as int == digits_value(d.subrange(0, k - start)),
        decreases to - k,
    {
        assert(is_digit(d[k - start]));
        assert(m@[k as int] == d[k - start]);
        let c = m[k] as u32;
        assert(48 <= c <= 57);
        let digit = (c - 48) as u64;
        proof {
            let p = d.subrange(0, k - start + 1);
            assert(p.drop_last() =~= d.subrange(0, k - start));
            assert(is_digit(d[k - start]));
        }
        if value > (u64::MAX - digit) / 10 {
            proof {
                lemma_digits_prefix_le(d, k - start + 1);
                assert(value * 10 + digit > u64::MAX) by (nonlinear_arith)
                    requires
                        value > (u64::MAX - digit) / 10,
                        digit <= 9,
                ;
                assert(m@[k as int] as int - '0' as int == digit);
            }
            return None;
        }
        value = value * 10 + digit;
        k = k + 1;
    }
    assert(d.subrange(0, d.len() as int) =~= d);
    Some(value)
}

/// Reads a transfer message; `None` when it is not one this engine routes.
pub fn parse_message_exec(msg: &String) -> (r: Option<(TransferAction, u64)>)
    ensures
        r == parse_message(msg@),
{
    let m = chars_of(msg);
    let c1 = find_colon(&m, 0);
    if c1 >= m.len() {
        return None;
    }
    let c2 = find_colon(&m, c1 + 1);
    let id = match parse_farm_id(&m, c1 + 1, c2) {
        None => {
            return None;
        },
        Some(id) => id,
    };
    let stake: Vec<char> = vec!['S', 'T', 'A', 'K', 'E'];
    let add_reward: Vec<char> = vec!['A', 'D', 'D', '_', 'R', 'E', 'W', 'A', 'R', 'D'];
    assert(stake@ =~= stake_tag());
    assert(add_reward@ =~= add_reward_tag());
    if equals_tag(&m, c1, &stake) {
        Some((TransferAction::Stake, id))
    } else if equals_tag(&m, c1, &add_reward) {
        Some((TransferAction::AddReward, id))
    } else {
        None
    }
}

} // verus!
