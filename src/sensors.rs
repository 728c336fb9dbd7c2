use vstd::prelude::*;
use crate::text::{chars_of, i64_of, parse_i64, trim_newlines};

verus! {

/// Whole degrees in `t` thousandths of a degree, rounded toward zero.
pub open spec fn degrees_of(t: int) -> int {
    if t >= 0 {
        t / 1000
    } else {
        -((-t) / 1000)
    }
}

/// What a sensor file holding `content` reads: an integer in thousandths of a
/// degree, after any trailing newlines; `None` when the file is empty or holds
/// no such integer.
pub open spec fn reading_of(content: Seq<char>) -> Option<i64> {
    if content.len() == 0 {
        None
    } else {
        i64_of(trim_newlines(content))
    }
}

/// `true` when `m` is the greatest of the valid readings in `readings`.
pub open spec fn is_max_reading(readings: Seq<Option<i64>>, m: i64) -> bool {
    &&& exists|i: int| 0 <= i < readings.len() && readings[i] == Some(m)
    &&& forall|i: int| 0 <= i < readings.len() && (#[trigger] readings[i]) is Some ==> readings[i]->0 <= m
}

/// Converts thousandths of a degree to whole degrees, rounding toward zero.
pub fn millic_to_c(temp: i64) -> (r: i64)
    ensures
        r == degrees_of(temp as int),
{
    temp / 1000
}

/// The reading held by a sensor file's content.
pub fn parse_temp_reading(content: &str) -> (r: Option<i64>)
    ensures
        r == reading_of(content@),
{
    let mut chars = chars_of(content);
    if chars.len() == 0 {
        return None;
    }
    while chars.len() > 0 && chars[chars.len() - 1] == '\n'
        invariant
            trim_newlines(chars@) == trim_newlines(content@),
        decreases chars.len(),
    {
        chars.pop();
    }
    parse_i64(&chars)
}

/// The temperature in whole degrees given one reading per sensor: the greatest
/// valid reading converted to degrees, or `None` when no reading is valid.
pub fn max_temperature(readings: &Vec<Option<i64>>) -> (r: Option<i64>)
    ensures
        r is None <==> forall|i: int| 0 <= i < readings.len() ==> (#[trigger] readings@[i]) is None,
        r is Some ==> exists|m: i64| is_max_reading(readings@, m) && r->0 == degrees_of(m as int),
{
    let mut best: Option<i64> = None;
    let mut i: usize = 0;
    while i < readings.len()
        invariant
            i <= readings.len(),
            best is None <==> forall|j: int| 0 <= j < i ==> (#[trigger] readings@[j]) is None,
            best is Some ==> is_max_reading(readings@.take(i as int), best->0),
        decreases readings.len() - i,
    {
        let ghost prefix = readings@.take(i as int);
        proof {
            assert(readings@.take(i + 1).drop_last() =~= prefix);
        }
        match readings[i] {
            Some(v) => {
                match best {
                    Some(b) => {
                        if v > b {
                            best = Some(v);
                        }
                    },
                    None => {
                        best = Some(v);
                    },
                }
            },
            None => {},
        }
        proof {
            let next = readings@.take(i + 1);
            if best is Some {
                let m = best->0;
                if readings@[i as int] == Some(m) {
                    assert(next[i as int] == Some(m));
                } else {
                    let k = choose|k: int| 0 <= k < prefix.len() && prefix[k] == Some(m);
                    assert(next[k] == Some(m));
                }
                assert forall|j: int| 0 <= j < next.len() && (#[trigger] next[j]) is Some implies next[j]->0
                    <= m by {
                    if j < i {
                        assert(prefix[j] == next[j]);
                    }
                }
            }
        }
        i = i + 1;
    }
    proof {
        assert(readings@.take(readings.len() as int) =~= readings@);
    }
    match best {
        Some(m) => Some(millic_to_c(m)),
        None => None,
    }
}

} // verus!
