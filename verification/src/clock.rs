//! The clock, and the texts made from it and a count.

use crate::text::{chars_of, numeral, push_numeral};
use vstd::prelude::*;

verus! {

/// Whether `c` is a decimal digit.
pub open spec fn is_digit(c: char) -> bool {
    '0' <= c <= '9'
}

/// The shape of a moment in UTC: a year of at least four characters, the first of which may be a
/// sign, and then `-MM-DDTHH:MM:SS.mmmZ` with digits for the letters that stand for numbers.
pub open spec fn moment_shape(s: Seq<char>) -> bool {
    let n = s.len() as int;
    &&& n >= 24
    &&& s[n - 20] == '-' && s[n - 17] == '-' && s[n - 14] == 'T'
    &&& s[n - 11] == ':' && s[n - 8] == ':' && s[n - 5] == '.' && s[n - 1] == 'Z'
    &&& is_digit(s[0]) || s[0] == '+' || s[0] == '-'
    &&& forall|i: int|
        0 < i < n - 1 && i != n - 20 && i != n - 17 && i != n - 14 && i != n - 11 && i != n - 8 && i
            != n - 5 ==> is_digit(#[trigger] s[i])
}

/// The time since the start of 1970 in nanoseconds, by `SystemTime::elapsed` of the epoch; nothing
/// where the clock is set before it. Nothing is said of the reading.
#[verifier::external_body]
fn nanos_since_epoch() -> (r: Option<u128>) {
    match std::time::UNIX_EPOCH.elapsed() {
        Ok(d) => Some(d.as_nanos()),
        Err(_) => None,
    }
}

/// The present moment as chrono writes it: `Utc::now` and `DateTime::to_rfc3339_opts` with
/// milliseconds and `Z`. Stated is the shape of the text; which moment it is depends on the clock.
/// With a clock set before 1970 the call does not return; it is made only behind a reading that is
/// not.
#[verifier::external_body]
pub(crate) fn now_iso() -> (r: String)
    ensures
        moment_shape(r@),
{
    chrono::Utc::now().to_rfc3339_opts(chrono::SecondsFormat::Millis, true)
}

/// A reading of the clock in whole milliseconds; zero where there is none.
pub open spec fn millis(nanos: Option<u128>) -> i64 {
    match nanos {
        Some(n) => (n / 1_000_000) as i64,
        None => 0,
    }
}

/// A reading of the clock in whole milliseconds.
pub fn millis_of(nanos: Option<u128>) -> (r: i64)
    ensures
        r == millis(nanos),
{
    match nanos {
        Some(n) => #[verifier::truncate]
        ((n / 1_000_000) as i64),
        None => 0,
    }
}

/// The milliseconds since the start of 1970.
pub fn now_millis() -> (r: i64)
    ensures
        exists|nanos: Option<u128>| r == #[trigger] millis(nanos),
{
    let nanos: Option<u128> = nanos_since_epoch();
    millis_of(nanos)
}

/// Where new texts come from: a count of those made so far, and the number of the process.
pub struct TokenSource {
    pub count: u64,
    pub process: u32,
}

/// A text made from a reading of the clock, a count and the number of a process: the three in
/// base sixteen.
pub open spec fn token(nanos: u128, count: u64, process: u32) -> Seq<char> {
    numeral(nanos as nat, 16) + numeral(count as nat, 16) + numeral(process as nat, 16)
}

/// A text made from a reading of the clock, a count and the number of a process.
pub fn token_of(nanos: u128, count: u64, process: u32) -> (r: String)
    ensures
        r@ == token(nanos, count, process),
{
    let mut r: String = String::new();
    push_numeral(&mut r, nanos, 16);
    push_numeral(&mut r, count as u128, 16);
    push_numeral(&mut r, process as u128, 16);
    proof {
        assert(r@ =~= token(nanos, count, process));
    }
    r
}

/// The source after one text was made.
pub open spec fn counted(source: TokenSource) -> TokenSource {
    TokenSource { count: source.count.wrapping_add(1), process: source.process }
}

impl TokenSource {
    /// The text made at a reading of the clock; it counts.
    pub fn text_at(&mut self, nanos: u128) -> (r: String)
        ensures
            *final(self) == counted(*old(self)),
            r@ == token(nanos, old(self).count, old(self).process),
    {
        let count: u64 = self.count;
        self.count = count.wrapping_add(1);
        token_of(nanos, count, self.process)
    }
}

/// A new text, from the clock and the count; each call counts.
pub fn random_text(source: &mut TokenSource) -> (r: String)
    ensures
        *final(source) == counted(*old(source)),
        exists|nanos: u128| r@ == #[trigger] token(nanos, old(source).count, old(source).process),
{
    let nanos: u128 = match nanos_since_epoch() {
        Some(n) => n,
        None => 0,
    };
    source.text_at(nanos)
}

/// The last six characters of a text, the last one first.
pub open spec fn suffix(s: Seq<char>) -> Seq<char> {
    s.reverse().take(if s.len() < 6 {
        s.len() as int
    } else {
        6
    })
}

/// The last six characters of a text, the last one first.
pub fn suffix_of(s: &str) -> (r: String)
    ensures
        r@ == suffix(s@),
{
    let v: Vec<char> = chars_of(s);
    let mut r: String = String::new();
    let mut i: usize = 0;
    while i < 6 && i < v.len()
        invariant
            v@ == s@,
            i <= 6,
            i <= v@.len(),
            r@ == s@.reverse().take(i as int),
        decreases 6 - i,
    {
        r.push(v[v.len() - 1 - i]);
        i = i + 1;
        proof {
            assert(s@.reverse().take(i as int) =~= s@.reverse().take(i - 1).push(
                s@[s@.len() - i as int],
            ));
        }
    }
    r
}

/// The last six characters of a new text, the last one first.
pub fn random_suffix(source: &mut TokenSource) -> (r: String)
    ensures
        *final(source) == counted(*old(source)),
        exists|nanos: u128|
            r@ == suffix(#[trigger] token(nanos, old(source).count, old(source).process)),
{
    let text: String = random_text(source);
    suffix_of(text.as_str())
}

/// One look at the clock: nanoseconds and milliseconds since the start of 1970, and the moment as
/// text.
pub struct Moment {
    pub nanos: u128,
    pub millis: i64,
    pub iso: String,
}

/// What a `Moment` stands for.
pub struct MomentView {
    pub nanos: u128,
    pub millis: i64,
    pub iso: Seq<char>,
}

impl View for Moment {
    type V = MomentView;

    open spec fn view(&self) -> MomentView {
        MomentView { nanos: self.nanos, millis: self.millis, iso: self.iso@ }
    }
}

impl Moment {
    /// Looks at the clock. One that is set before 1970 counts as standing at its start.
    pub fn now() -> (r: Moment)
        ensures
            moment_shape(r@.iso),
    {
        match nanos_since_epoch() {
            Some(nanos) => Moment { nanos, millis: now_millis(), iso: now_iso() },
            None => {
                proof {
                    reveal_strlit("1970-01-01T00:00:00.000Z");
                }
                Moment { nanos: 0, millis: 0, iso: "1970-01-01T00:00:00.000Z".to_owned() }
            },
        }
    }
}

} // verus!
