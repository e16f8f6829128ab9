//! The entry model: one logged volunteering session, its view, and the
//! validation rules that turn raw form input into a stored record.

use vstd::prelude::*;
use crate::text::{trim_spec, trim_str, chars_of};

verus! {

/// Why an entry could not be built from the given input.
#[derive(Clone, Copy, Debug, PartialEq, Eq, Structural)]
pub enum ValidationError {
    /// `date` or `org` is empty after trimming.
    MissingRequired,
    /// The hours input does not denote a number greater than zero
    /// (an unparsable input counts as zero).
    NonPositiveHours,
}

/// One logged volunteering session.
///
/// `hours` holds the validated decimal text of the hours input: an
/// optional sign, digits with at most one decimal point, and an
/// optional exponent part (see [`valid_hours`]), denoting a value
/// strictly greater than zero (see [`positive_hours`]).
#[derive(Debug)]
pub struct Entry {
    pub id: String,
    pub date: String,
    pub org: String,
    pub hours: String,
    pub tasks: String,
    pub reflection: String,
    pub tags: String,
    pub created_at: String,
}

/// The mathematical value of an [`Entry`]: each field as a character
/// sequence.
#[verifier::ext_equal]
pub struct EntryView {
    pub id: Seq<char>,
    pub date: Seq<char>,
    pub org: Seq<char>,
    pub hours: Seq<char>,
    pub tasks: Seq<char>,
    pub reflection: Seq<char>,
    pub tags: Seq<char>,
    pub created_at: Seq<char>,
}

impl View for Entry {
    type V = EntryView;

    open spec fn view(&self) -> EntryView {
        EntryView {
            id: self.id@,
            date: self.date@,
            org: self.org@,
            hours: self.hours@,
            tasks: self.tasks@,
            reflection: self.reflection@,
            tags: self.tags@,
            created_at: self.created_at@,
        }
    }
}

impl DeepView for Entry {
    type V = EntryView;

    open spec fn deep_view(&self) -> EntryView {
        self.view()
    }
}

/// A decimal digit.
pub open spec fn is_digit(c: char) -> bool {
    48 <= (c as u32) <= 57
}

/// A sign character.
pub open spec fn is_sign(c: char) -> bool {
    c == '+' || c == '-'
}

/// An exponent marker.
pub open spec fn is_exp_marker(c: char) -> bool {
    c == 'e' || c == 'E'
}

/// `s` without its single optional leading sign.
pub open spec fn strip_sign(s: Seq<char>) -> Seq<char> {
    if s.len() > 0 && is_sign(s[0]) {
        s.drop_first()
    } else {
        s
    }
}

/// The characters before the first exponent marker: the mantissa.
pub open spec fn mant_of(s: Seq<char>) -> Seq<char>
    decreases s.len(),
{
    if s.len() == 0 {
        Seq::empty()
    } else if is_exp_marker(s[0]) {
        Seq::empty()
    } else {
        seq![s[0]] + mant_of(s.drop_first())
    }
}

/// The characters after the first exponent marker; `None` when there
/// is no marker.
pub open spec fn exp_of(s: Seq<char>) -> Option<Seq<char>>
    decreases s.len(),
{
    if s.len() == 0 {
        None
    } else if is_exp_marker(s[0]) {
        Some(s.drop_first())
    } else {
        exp_of(s.drop_first())
    }
}

/// A well-formed mantissa: digits with at most one decimal point, at
/// least one digit (so `.5`, `5.`, `2.5` and `25` all qualify, `.`
/// alone does not).
pub open spec fn valid_mantissa(m: Seq<char>) -> bool {
    &&& forall|i: int| 0 <= i < m.len() ==> is_digit(m[i]) || m[i] == '.'
    &&& forall|i: int, j: int|
        0 <= i < m.len() && 0 <= j < m.len() && m[i] == '.' && m[j] == '.' ==> i == j
    &&& exists|i: int| 0 <= i < m.len() && is_digit(m[i])
}

/// A well-formed exponent part (what follows `e`/`E`): an optional
/// sign, then one or more digits.
pub open spec fn valid_exp(x: Seq<char>) -> bool {
    &&& strip_sign(x).len() > 0
    &&& forall|i: int| 0 <= i < strip_sign(x).len() ==> is_digit(strip_sign(x)[i])
}

/// The hours text denotes a finite decimal number, in the shape the
/// standard float grammar gives finite values: an optional sign, a
/// mantissa of digits with at most one decimal point and at least one
/// digit, and an optional exponent part. Word forms such as infinity
/// are not numbers of hours and are left out.
pub open spec fn valid_hours(s: Seq<char>) -> bool {
    &&& valid_mantissa(mant_of(strip_sign(s)))
    &&& match exp_of(strip_sign(s)) {
        None => true,
        Some(x) => valid_exp(x),
    }
}

/// The denoted number is strictly greater than zero: no leading
/// minus, and the mantissa has a digit other than `0` (an exponent
/// only scales by a power of ten, so it cannot change the sign or
/// nullity of the value).
pub open spec fn positive_hours(s: Seq<char>) -> bool {
    &&& !(s.len() > 0 && s[0] == '-')
    &&& exists|i: int|
        0 <= i < mant_of(strip_sign(s)).len() && is_digit(mant_of(strip_sign(s))[i])
            && mant_of(strip_sign(s))[i] != '0'
}

/// The invariant of every entry that reaches storage: required fields
/// are non-empty and the hours text denotes a positive number.
pub open spec fn valid_entry(e: EntryView) -> bool {
    &&& e.date.len() > 0
    &&& e.org.len() > 0
    &&& valid_hours(e.hours)
    &&& positive_hours(e.hours)
}

/// Every entry of the list satisfies [`valid_entry`].
pub open spec fn valid_list(l: Seq<EntryView>) -> bool {
    forall|i: int| 0 <= i < l.len() ==> valid_entry(#[trigger] l[i])
}

fn digit_exec(c: char) -> (b: bool)
    ensures
        b == is_digit(c),
{
    48 <= (c as u32) && (c as u32) <= 57
}

proof fn lemma_mant_exp_at(s: Seq<char>, p: int)
    requires
        0 <= p <= s.len(),
        forall|j: int| 0 <= j < p ==> !is_exp_marker(s[j]),
        p < s.len() ==> is_exp_marker(s[p]),
    ensures
        mant_of(s) == s.take(p),
        exp_of(s) == if p == s.len() {
            None::<Seq<char>>
        } else {
            Some(s.skip(p + 1))
        },
    decreases p,
{
    if p == 0 {
        assert(s.take(0) =~= Seq::<char>::empty());
        if s.len() > 0 {
            assert(s.drop_first() =~= s.skip(1));
        }
    } else {
        assert(!is_exp_marker(s[0]));
        lemma_mant_exp_at(s.drop_first(), p - 1);
        assert(seq![s[0]] + s.drop_first().take(p - 1) =~= s.take(p));
        if p < s.len() {
            assert(s.drop_first().skip(p) =~= s.skip(p + 1));
        }
    }
}

/// Decides whether `v` is a well-formed, positive hours text.
pub fn hours_ok(v: &Vec<char>) -> (r: bool)
    ensures
        r == (valid_hours(v@) && positive_hours(v@)),
{
    let n: usize = v.len();
    if n == 0 {
        return false;
    }
    let neg = v[0] == '-';
    let start: usize = if v[0] == '-' || v[0] == '+' {
        1
    } else {
        0
    };
    let ghost b = strip_sign(v@);
    proof {
        if start == 1 {
            assert(v@.drop_first() =~= v@.skip(1));
        } else {
            assert(v@.skip(0) =~= v@);
        }
        assert(b == v@.skip(start as int));
    }
    let mut e_pos: usize = start;
    while e_pos < n && !(v[e_pos] == 'e' || v[e_pos] == 'E')
        invariant
            start <= e_pos <= n,
            n == v@.len(),
            start == if neg || (v@.len() > 0 && v@[0] == '+') {
                1int
            } else {
                0int
            },
            neg == (v@.len() > 0 && v@[0] == '-'),
            b == strip_sign(v@),
            b == v@.skip(start as int),
            forall|j: int| start <= j < e_pos ==> !is_exp_marker(v@[j]),
        decreases n - e_pos,
    {
        e_pos = e_pos + 1;
    }
    let ghost m = v@.subrange(start as int, e_pos as int);
    proof {
        assert(forall|j: int| 0 <= j < b.len() ==> b[j] == v@[start + j]);
        lemma_mant_exp_at(b, e_pos - start);
        assert(b.take(e_pos - start) =~= m);
        assert(mant_of(b) == m);
        if e_pos < n {
            assert(b.skip(e_pos - start + 1) =~= v@.skip(e_pos + 1));
        }
    }
    let mut seen_dot: Option<usize> = None;
    let mut saw_digit: bool = false;
    let mut nonzero: bool = false;
    let mut i: usize = start;
    while i < e_pos
        invariant
            start <= i <= e_pos <= n,
            n == v@.len(),
            neg == (v@.len() > 0 && v@[0] == '-'),
            b == strip_sign(v@),
            b == v@.skip(start as int),
            m == v@.subrange(start as int, e_pos as int),
            mant_of(b) == m,
            exp_of(b) == if e_pos == n {
                None::<Seq<char>>
            } else {
                Some(v@.skip(e_pos + 1))
            },
            forall|j: int| start <= j < i ==> is_digit(v@[j]) || v@[j] == '.',
            match seen_dot {
                Some(d) => start <= d < i && v@[d as int] == '.' && forall|j: int|
                    start <= j < i && j != d ==> v@[j] != '.',
                None => forall|j: int| start <= j < i ==> v@[j] != '.',
            },
            saw_digit == exists|j: int| start <= j < i && is_digit(#[trigger] v@[j]),
            nonzero == exists|j: int|
                start <= j < i && is_digit(#[trigger] v@[j]) && v@[j] != '0',
        decreases e_pos - i,
    {
        let c = v[i];
        if digit_exec(c) {
            saw_digit = true;
            if c != '0' {
                nonzero = true;
            }
        } else if c == '.' {
            if let Some(d) = seen_dot {
                proof {
                    assert(m[d - start] == '.' && m[i - start] == '.' && d != i);
                    assert(!valid_mantissa(m));
                }
                return false;
            }
            seen_dot = Some(i);
        } else {
            proof {
                assert(!(is_digit(m[i - start]) || m[i - start] == '.'));
                assert(!valid_mantissa(m));
            }
            return false;
        }
        i = i + 1;
    }
    if !saw_digit {
        proof {
            assert forall|k: int| 0 <= k < m.len() implies !is_digit(#[trigger] m[k]) by {
                assert(m[k] == v@[start + k]);
            }
            assert(!valid_mantissa(m));
        }
        return false;
    }
    proof {
        assert(valid_mantissa(m)) by {
            let w = choose|j: int| start <= j < e_pos && is_digit(#[trigger] v@[j]);
            assert(is_digit(m[w - start]));
        }
        assert(nonzero == exists|k: int|
            0 <= k < m.len() && is_digit(#[trigger] m[k]) && m[k] != '0') by {
            if nonzero {
                let w = choose|j: int|
                    start <= j < e_pos && is_digit(#[trigger] v@[j]) && v@[j] != '0';
                assert(is_digit(m[w - start]) && m[w - start] != '0');
            } else {
                assert forall|k: int|
                    0 <= k < m.len() && is_digit(#[trigger] m[k]) implies m[k] == '0' by {
                    assert(m[k] == v@[start + k]);
                }
            }
        }
    }
    if e_pos < n {
        let ghost x = v@.skip(e_pos + 1);
        let mut q: usize = e_pos + 1;
        if q < n && (v[q] == '+' || v[q] == '-') {
            proof {
                assert(x[0] == v@[e_pos + 1]);
            }
            q = q + 1;
            proof {
                assert(x.drop_first() =~= v@.skip(q as int));
            }
        }
        proof {
            assert(strip_sign(x) == v@.skip(q as int));
        }
        if q == n {
            proof {
                assert(strip_sign(x).len() == 0);
                assert(!valid_exp(x));
            }
            return false;
        }
        let mut t: usize = q;
        while t < n
            invariant
                q <= t <= n,
                n == v@.len(),
                strip_sign(x) == v@.skip(q as int),
                exp_of(b) == Some(x),
                valid_mantissa(m),
                mant_of(b) == m,
                b == strip_sign(v@),
                neg == (v@.len() > 0 && v@[0] == '-'),
                nonzero == exists|k: int|
                    0 <= k < m.len() && is_digit(#[trigger] m[k]) && m[k] != '0',
                forall|j: int| q <= j < t ==> is_digit(v@[j]),
            decreases n - t,
        {
            if !digit_exec(v[t]) {
                proof {
                    assert(strip_sign(x)[t - q] == v@[t as int]);
                    assert(!valid_exp(x));
                }
                return false;
            }
            t = t + 1;
        }
        proof {
            assert forall|k: int| 0 <= k < strip_sign(x).len() implies is_digit(
                #[trigger] strip_sign(x)[k],
            ) by {
                assert(strip_sign(x)[k] == v@[q + k]);
            }
            assert(valid_exp(x));
        }
    }
    proof {
        assert(valid_hours(v@));
        assert(positive_hours(v@) == (!neg && nonzero));
    }
    !neg && nonzero
}

/// Builds a validated entry from raw form input.
///
/// All string inputs are trimmed. Construction fails with
/// `MissingRequired` when the trimmed date or organization is empty,
/// and with `NonPositiveHours` when the trimmed hours input is not a
/// decimal number greater than zero (an unparsable input counts as
/// zero). On success every field of the result is the trimmed input,
/// with `id` and `created_at` taken verbatim from the caller, which
/// supplies a fresh identifier and the current timestamp.
pub fn build_entry(
    date: &str,
    org: &str,
    hours_raw: &str,
    tasks: &str,
    reflection: &str,
    tags: &str,
    id: &str,
    created_at: &str,
) -> (r: Result<Entry, ValidationError>)
    ensures
        ({
            let d = trim_spec(date@);
            let o = trim_spec(org@);
            let h = trim_spec(hours_raw@);
            &&& (r == Err::<Entry, ValidationError>(ValidationError::MissingRequired) <==> (
            d.len() == 0 || o.len() == 0))
            &&& (r == Err::<Entry, ValidationError>(ValidationError::NonPositiveHours) <==> (
            d.len() > 0 && o.len() > 0 && !(valid_hours(h) && positive_hours(h))))
            &&& (r is Ok <==> (d.len() > 0 && o.len() > 0 && valid_hours(h) && positive_hours(
                h,
            )))
            &&& r matches Ok(e) ==> e@ == (EntryView {
                id: id@,
                date: d,
                org: o,
                hours: h,
                tasks: trim_spec(tasks@),
                reflection: trim_spec(reflection@),
                tags: trim_spec(tags@),
                created_at: created_at@,
            }) && valid_entry(e@)
        }),
{
    let d = trim_str(date);
    let o = trim_str(org);
    let h = trim_str(hours_raw);
    if d.as_str().is_empty() || o.as_str().is_empty() {
        return Err(ValidationError::MissingRequired);
    }
    let hv = chars_of(h.as_str());
    if !hours_ok(&hv) {
        return Err(ValidationError::NonPositiveHours);
    }
    Ok(
        Entry {
            id: String::from_str(id),
            date: d,
            org: o,
            hours: h,
            tasks: trim_str(tasks),
            reflection: trim_str(reflection),
            tags: trim_str(tags),
            created_at: String::from_str(created_at),
        },
    )
}

} // verus!
