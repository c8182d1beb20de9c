//! What is made of the feeds: payloads freed of their byte-order mark,
//! classifications joined with the driver table and put in order, alerts for
//! sessions about to start, and the season calendar.
use vstd::prelude::*;
use vstd::string::*;
use crate::database::{driver_upserted, DriverRef, has_driver, has_path, is_latest_session, is_past_session, Store};
use crate::models::{DriverList, ConstructorStanding, CurrentConstructorStandings, CurrentDriverStandings, ErgastAPIDriverStanding, F1APIDriverStanding, SessionInfo, SessionResults};
use crate::text::{chars_of, parse_int, parse_int_in, push_signed_decimal, signed_decimal};

verus! {

/// The byte-order mark that some feeds put before their payload.
pub open spec fn bom() -> char {
    '\u{feff}'
}

/// `s` without the byte-order marks it begins with.
pub open spec fn strip_bom(s: Seq<char>) -> Seq<char>
    decreases s.len(),
{
    if s.len() > 0 && s[0] == bom() {
        strip_bom(s.drop_first())
    } else {
        s
    }
}

/// The payload of a feed: the body without leading byte-order marks.
pub fn strip_byte_order_mark(body: &str) -> (r: &str)
    ensures
        r@ == strip_bom(body@),
{
    let n: usize = body.unicode_len();
    let mut i: usize = 0;
    proof {
        assert(body@.subrange(0, n as int) =~= body@);
    }
    while i < n && body.get_char(i) == '\u{feff}'
        invariant
            i <= n,
            n == body@.len(),
            strip_bom(body@) == strip_bom(body@.subrange(i as int, n as int)),
        decreases n - i,
    {
        proof {
            let rest = body@.subrange(i as int, n as int);
            assert(rest[0] == body@[i as int]);
            assert(rest.drop_first() =~= body@.subrange(i + 1, n as int));
        }
        i += 1;
    }
    proof {
        let rest = body@.subrange(i as int, n as int);
        if i < n {
            assert(rest[0] == body@[i as int]);
        }
    }
    body.substring_char(i, n)
}

/// A payload that begins with a byte-order mark reads as the same payload
/// without it.
pub proof fn byte_order_mark_is_ignored(payload: Seq<char>)
    ensures
        strip_bom(seq![bom()] + payload) == strip_bom(payload),
        strip_bom(strip_bom(payload)) == strip_bom(payload),
    decreases payload.len(),
{
    let marked = seq![bom()] + payload;
    assert(marked[0] == bom());
    assert(marked.drop_first() =~= payload);
    if payload.len() > 0 && payload[0] == bom() {
        byte_order_mark_is_ignored(payload.drop_first());
    }
}

/// Whether row `x` comes before row `y` when rows are put in order of their
/// keys and rows with equal keys stay in the order in which they came.
pub open spec fn comes_before(keys: Seq<i64>, x: int, y: int) -> bool {
    keys[x] < keys[y] || (keys[x] == keys[y] && x < y)
}

/// Whether `order` lists row `x`.
pub open spec fn lists_row(order: Seq<usize>, x: int) -> bool {
    exists|a: int| 0 <= a < order.len() && #[trigger] order[a] == x
}

/// Whether `order` lists every row of `keys` once, by ascending key, rows
/// with equal keys in the order in which they came.
pub open spec fn is_stable_order(keys: Seq<i64>, order: Seq<usize>) -> bool {
    &&& order.len() == keys.len()
    &&& forall|a: int| 0 <= a < order.len() ==> (#[trigger] order[a]) < keys.len()
    &&& forall|a: int, b: int|
        0 <= a < b < order.len() ==> comes_before(keys, #[trigger] order[a] as int, #[trigger] order[b] as int)
    &&& forall|x: int| 0 <= x < keys.len() ==> #[trigger] lists_row(order, x)
}

/// The rows of `keys` in ascending order of key; rows with equal keys stay in
/// the order in which they came.
pub fn stable_order(keys: &Vec<i64>) -> (order: Vec<usize>)
    ensures
        is_stable_order(keys@, order@),
{
    let mut order: Vec<usize> = Vec::new();
    let mut k: usize = 0;
    while k < keys.len()
        invariant
            k <= keys@.len(),
            order@.len() == k,
            forall|a: int| 0 <= a < order@.len() ==> (#[trigger] order@[a]) < k,
            forall|a: int, b: int|
                0 <= a < b < order@.len() ==> comes_before(
                    keys@,
                    #[trigger] order@[a] as int,
                    #[trigger] order@[b] as int,
                ),
            forall|x: int| 0 <= x < k ==> #[trigger] lists_row(order@, x),
        decreases keys@.len() - k,
    {
        let mut p: usize = 0;
        while p < order.len() && keys[order[p]] <= keys[k]
            invariant
                p <= order@.len(),
                k < keys@.len(),
                forall|a: int| 0 <= a < order@.len() ==> (#[trigger] order@[a]) < k,
                forall|a: int| 0 <= a < p ==> keys@[(#[trigger] order@[a]) as int] <= keys@[k as int],
            decreases order@.len() - p,
        {
            p += 1;
        }
        let ghost before = order@;
        order.insert(p, k);
        proof {
            assert forall|a: int| 0 <= a < order@.len() implies (#[trigger] order@[a]) < k + 1 by {
                if a < p {
                    assert(order@[a] == before[a]);
                } else if a > p {
                    assert(order@[a] == before[a - 1]);
                }
            }
            assert forall|a: int, b: int| 0 <= a < b < order@.len() implies comes_before(
                keys@,
                #[trigger] order@[a] as int,
                #[trigger] order@[b] as int,
            ) by {
                if b < p {
                    assert(order@[a] == before[a] && order@[b] == before[b]);
                } else if b == p {
                    assert(order@[a] == before[a]);
                    assert(before[a] < k);
                } else if a < p {
                    assert(order@[a] == before[a] && order@[b] == before[b - 1]);
                } else if a == p {
                    assert(order@[b] == before[b - 1]);
                    if b - 1 > p {
                        assert(comes_before(keys@, before[p as int] as int, before[b - 1] as int));
                    }
                } else {
                    assert(order@[a] == before[a - 1] && order@[b] == before[b - 1]);
                }
            }
            assert forall|x: int| 0 <= x < k + 1 implies #[trigger] lists_row(order@, x) by {
                if x == k {
                    assert(order@[p as int] == x);
                } else {
                    assert(lists_row(before, x));
                    let a0 = choose|a: int| 0 <= a < before.len() && #[trigger] before[a] == x;
                    if a0 < p {
                        assert(order@[a0] == x);
                    } else {
                        assert(order@[a0 + 1] == x);
                    }
                }
            }
        }
        k += 1;
    }
    order
}

/// Two stable orders of the same keys agree at every place.
pub proof fn stable_order_agrees(keys: Seq<i64>, first: Seq<usize>, second: Seq<usize>, place: int)
    requires
        is_stable_order(keys, first),
        is_stable_order(keys, second),
        0 <= place < keys.len(),
    ensures
        first[place] == second[place],
    decreases place,
{
    let x = first[place] as int;
    let y = second[place] as int;
    assert(lists_row(second, x));
    let b = choose|b: int| 0 <= b < second.len() && #[trigger] second[b] == x;
    assert(lists_row(first, y));
    let c = choose|c: int| 0 <= c < first.len() && #[trigger] first[c] == y;
    if b < place {
        stable_order_agrees(keys, first, second, b);
        assert(comes_before(keys, first[b] as int, first[place] as int));
    } else if c < place {
        stable_order_agrees(keys, first, second, c);
        assert(comes_before(keys, second[c] as int, second[place] as int));
    } else if b > place && c > place {
        assert(comes_before(keys, second[place] as int, second[b] as int));
        assert(comes_before(keys, first[place] as int, first[c] as int));
    }
}

/// The keys leave only one stable order.
pub proof fn stable_order_is_unique(keys: Seq<i64>, first: Seq<usize>, second: Seq<usize>)
    requires
        is_stable_order(keys, first),
        is_stable_order(keys, second),
    ensures
        first == second,
{
    assert forall|a: int| 0 <= a < first.len() implies first[a] == second[a] by {
        stable_order_agrees(keys, first, second, a);
    }
    assert(first =~= second);
}

/// The stable order of `keys`.
pub open spec fn sorted_rows(keys: Seq<i64>) -> Seq<usize> {
    choose|order: Seq<usize>| is_stable_order(keys, order)
}

/// The first place at or after `from` whose row has a key above `key`, or
/// the length of `order` if there is none.
pub open spec fn place_above(keys: Seq<i64>, order: Seq<usize>, key: i64, from: int) -> int
    decreases order.len() - from,
{
    if from < 0 || from >= order.len() {
        order.len() as int
    } else if keys[order[from] as int] > key {
        from
    } else {
        place_above(keys, order, key, from + 1)
    }
}

/// The place above a key has a greater key, and no place before it has.
pub proof fn place_above_is_first(keys: Seq<i64>, order: Seq<usize>, key: i64, from: int)
    requires
        0 <= from <= order.len(),
    ensures
        from <= place_above(keys, order, key, from) <= order.len(),
        place_above(keys, order, key, from) < order.len() ==> keys[order[place_above(
            keys,
            order,
            key,
            from,
        )] as int] > key,
        forall|a: int|
            from <= a < place_above(keys, order, key, from) ==> keys[(#[trigger] order[a]) as int]
                <= key,
    decreases order.len() - from,
{
    if from < order.len() && keys[order[from] as int] <= key {
        place_above_is_first(keys, order, key, from + 1);
    }
}

/// Every table that fits in memory has a stable order.
pub proof fn stable_order_exists(keys: Seq<i64>)
    requires
        keys.len() <= usize::MAX,
    ensures
        is_stable_order(keys, sorted_rows(keys)),
    decreases keys.len(),
{
    if keys.len() == 0 {
        assert(is_stable_order(keys, Seq::<usize>::empty()));
    } else {
        let front = keys.drop_last();
        stable_order_exists(front);
        let before = sorted_rows(front);
        let k = keys.len() - 1;
        let p = place_above(keys, before, keys[k], 0);
        place_above_is_first(keys, before, keys[k], 0);
        let order = before.insert(p, k as usize);
        before.insert_ensures(p, k as usize);
        assert forall|a: int, b: int| 0 <= a < b < before.len() implies keys[(
        #[trigger] before[a]) as int] <= keys[(#[trigger] before[b]) as int] by {
            assert(comes_before(front, before[a] as int, before[b] as int));
        }
        assert(is_stable_order(keys, order)) by {
            assert forall|a: int| 0 <= a < order.len() implies (#[trigger] order[a]) < keys.len() by {
                if a < p {
                    assert(order[a] == before[a]);
                } else if a > p {
                    assert(order[a] == before[a - 1]);
                }
            }
            assert forall|a: int, b: int| 0 <= a < b < order.len() implies comes_before(
                keys,
                #[trigger] order[a] as int,
                #[trigger] order[b] as int,
            ) by {
                if b < p {
                    assert(order[a] == before[a] && order[b] == before[b]);
                    assert(comes_before(front, before[a] as int, before[b] as int));
                } else if b == p {
                    assert(order[a] == before[a]);
                    assert(before[a] < k);
                } else if a < p {
                    assert(order[a] == before[a] && order[b] == before[b - 1]);
                    assert(comes_before(front, before[a] as int, before[b - 1] as int));
                } else if a == p {
                    assert(order[b] == before[b - 1]);
                    if b - 1 > p {
                        assert(keys[before[p] as int] <= keys[before[b - 1] as int]);
                    }
                } else {
                    assert(order[a] == before[a - 1] && order[b] == before[b - 1]);
                    assert(comes_before(front, before[a - 1] as int, before[b - 1] as int));
                }
            }
            assert forall|x: int| 0 <= x < keys.len() implies #[trigger] lists_row(order, x) by {
                if x == k {
                    assert(order[p] == x);
                } else {
                    assert(lists_row(before, x));
                    let a0 = choose|a: int| 0 <= a < before.len() && #[trigger] before[a] == x;
                    if a0 < p {
                        assert(order[a0] == x);
                    } else {
                        assert(order[a0 + 1] == x);
                    }
                }
            }
        }
    }
}

/// How many rows a standings message shows: ten, or all if there are fewer.
pub open spec fn rows_shown(rows: int) -> int {
    if rows < 10 {
        rows
    } else {
        10
    }
}

/// The rows that a standings message shows are the best placed: in stable
/// order the keys ascend, so no row left out has a smaller key than a row
/// shown, and no row is shown twice.
pub proof fn shown_rows_are_the_top(keys: Seq<i64>)
    requires
        keys.len() <= usize::MAX,
    ensures
        is_stable_order(keys, sorted_rows(keys)),
        forall|a: int, b: int|
            0 <= a < b < rows_shown(keys.len() as int) ==> keys[(
            #[trigger] sorted_rows(keys)[a]) as int] <= keys[(
            #[trigger] sorted_rows(keys)[b]) as int],
        forall|a: int, b: int|
            0 <= a < rows_shown(keys.len() as int) <= b < keys.len() ==> keys[(
            #[trigger] sorted_rows(keys)[a]) as int] <= keys[(
            #[trigger] sorted_rows(keys)[b]) as int],
        forall|a: int, b: int|
            0 <= a < b < keys.len() ==> (#[trigger] sorted_rows(keys)[a]) != (
            #[trigger] sorted_rows(keys)[b]),
{
    stable_order_exists(keys);
    let order = sorted_rows(keys);
    assert forall|a: int, b: int| 0 <= a < b < keys.len() implies keys[(#[trigger] order[a]) as int]
        <= keys[(#[trigger] order[b]) as int] && order[a] != order[b] by {
        assert(comes_before(keys, order[a] as int, order[b] as int));
    }
}

/// One row of a standings message.
pub open spec fn standing_line(position: Seq<char>, name: Seq<char>, score: Seq<char>) -> Seq<char> {
    " "@ + position + ". "@ + name + " - \x0303["@ + score + "]\x03"@
}

/// The keys by which a classification is put in order: the positions.
pub open spec fn position_keys(rows: Seq<F1APIDriverStanding>) -> Seq<i64> {
    Seq::new(rows.len(), |i: int| rows[i].position as i64)
}

/// The first `count` rows of a classification in the given order, as text.
pub open spec fn session_lines(rows: Seq<F1APIDriverStanding>, order: Seq<usize>, count: int) -> Seq<
    char,
>
    decreases count,
{
    if count <= 0 {
        Seq::empty()
    } else {
        let row = rows[order[count - 1] as int];
        session_lines(rows, order, count - 1) + standing_line(
            signed_decimal(row.position as int),
            row.driver_name@,
            row.time@,
        )
    }
}

/// The message that delivers a classification: its title, then the ten best
/// placed rows by ascending position.
pub open spec fn results_text(title: Seq<char>, rows: Seq<F1APIDriverStanding>) -> Seq<char> {
    "🏎️ \x02"@ + title + " Results\x02:"@ + session_lines(
        rows,
        sorted_rows(position_keys(rows)),
        rows_shown(rows.len() as int),
    )
}

/// Whether `b` holds the rows of `a` in another order: row `j` of `b` is row
/// `from[j]` of `a`, and `from` lists every row of `a` once.
pub open spec fn is_reordering(
    a: Seq<F1APIDriverStanding>,
    b: Seq<F1APIDriverStanding>,
    from: Seq<usize>,
) -> bool {
    &&& b.len() == a.len()
    &&& from.len() == a.len()
    &&& forall|j: int| 0 <= j < b.len() ==> (#[trigger] from[j]) < a.len() && b[j] == a[from[j] as int]
    &&& forall|i: int, j: int| 0 <= i < j < from.len() ==> (#[trigger] from[i]) != (#[trigger] from[j])
    &&& forall|x: int| 0 <= x < a.len() ==> #[trigger] lists_row(from, x)
}

/// Whether no two rows share a position.
pub open spec fn positions_differ(rows: Seq<F1APIDriverStanding>) -> bool {
    forall|i: int, j: int|
        0 <= i < j < rows.len() ==> (#[trigger] rows[i]).position != (#[trigger] rows[j]).position
}

/// Two tables that put the same rows in stable order show the same lines,
/// whatever the order in which the rows came, as long as no two rows share
/// a position.
pub proof fn reordered_rows_show_the_same_lines(
    a: Seq<F1APIDriverStanding>,
    b: Seq<F1APIDriverStanding>,
    from: Seq<usize>,
    order_a: Seq<usize>,
    order_b: Seq<usize>,
    count: int,
)
    requires
        is_reordering(a, b, from),
        positions_differ(a),
        is_stable_order(position_keys(a), order_a),
        is_stable_order(position_keys(b), order_b),
        0 <= count <= a.len(),
    ensures
        session_lines(a, order_a, count) == session_lines(b, order_b, count),
    decreases count,
{
    if count > 0 {
        reordered_rows_show_the_same_lines(a, b, from, order_a, order_b, count - 1);
        let keys_a = position_keys(a);
        let keys_b = position_keys(b);
        let through = Seq::new(a.len(), |i: int| from[order_b[i] as int]);
        assert(is_stable_order(keys_a, through)) by {
            assert forall|i: int, j: int| 0 <= i < j < through.len() implies comes_before(
                keys_a,
                #[trigger] through[i] as int,
                #[trigger] through[j] as int,
            ) by {
                let p = order_b[i] as int;
                let q = order_b[j] as int;
                assert(comes_before(keys_b, p, q));
                assert(b[p] == a[from[p] as int] && b[q] == a[from[q] as int]);
                if p < q {
                    assert(from[p] != from[q]);
                } else {
                    assert(from[q] != from[p]);
                }
                if from[p] < from[q] {
                    assert(a[from[p] as int].position != a[from[q] as int].position);
                } else {
                    assert(a[from[q] as int].position != a[from[p] as int].position);
                }
            }
            assert forall|x: int| 0 <= x < keys_a.len() implies #[trigger] lists_row(through, x) by {
                assert(lists_row(from, x));
                let j = choose|j: int| 0 <= j < from.len() && #[trigger] from[j] == x;
                assert(lists_row(order_b, j));
                let i = choose|i: int| 0 <= i < order_b.len() && #[trigger] order_b[i] == j;
                assert(through[i] == x);
            }
        }
        stable_order_is_unique(keys_a, through, order_a);
        assert(a[order_a[count - 1] as int] == b[order_b[count - 1] as int]) by {
            assert(through[count - 1] == from[order_b[count - 1] as int]);
        }
    }
}

/// The delivery message of a classification does not depend on the order
/// in which its rows came, as long as no two rows share a position.
pub proof fn order_of_the_feed_is_ignored(
    title: Seq<char>,
    a: Seq<F1APIDriverStanding>,
    b: Seq<F1APIDriverStanding>,
    from: Seq<usize>,
)
    requires
        a.len() <= usize::MAX,
        is_reordering(a, b, from),
        positions_differ(a),
    ensures
        results_text(title, a) == results_text(title, b),
{
    stable_order_exists(position_keys(a));
    stable_order_exists(position_keys(b));
    reordered_rows_show_the_same_lines(
        a,
        b,
        from,
        sorted_rows(position_keys(a)),
        sorted_rows(position_keys(b)),
        rows_shown(a.len() as int),
    );
}

fn push_standing_line(out: &mut String, position: &str, name: &str, score: &str)
    ensures
        final(out)@ == old(out)@ + standing_line(position@, name@, score@),
{
    out.append(" ");
    out.append(position);
    out.append(". ");
    out.append(name);
    out.append(" - \x0303[");
    out.append(score);
    out.append("]\x03");
    proof {
        assert(final(out)@ =~= old(out)@ + standing_line(position@, name@, score@));
    }
}

/// Formats a classification for delivery.
pub fn format_results(results: &SessionResults) -> (r: String)
    ensures
        r@ == results_text(results.title@, results.standings@),
{
    let rows = &results.standings;
    let mut keys: Vec<i64> = Vec::new();
    let mut i: usize = 0;
    while i < rows.len()
        invariant
            i <= rows@.len(),
            keys@.len() == i,
            forall|j: int| 0 <= j < i ==> #[trigger] keys@[j] == rows@[j].position as i64,
        decreases rows@.len() - i,
    {
        keys.push(rows[i].position as i64);
        i += 1;
    }
    proof {
        assert(keys@ =~= position_keys(rows@));
    }
    let order = stable_order(&keys);
    proof {
        stable_order_is_unique(keys@, order@, sorted_rows(keys@));
    }
    let mut out = String::from_str("🏎️ \x02");
    out.append(results.title.as_str());
    out.append(" Results\x02:");
    let ghost head = out@;
    let shown: usize = if rows.len() < 10 {
        rows.len()
    } else {
        10
    };
    let mut a: usize = 0;
    while a < shown
        invariant
            a <= shown <= rows@.len(),
            is_stable_order(keys@, order@),
            keys@.len() == rows@.len(),
            out@ == head + session_lines(rows@, order@, a as int),
        decreases shown - a,
    {
        let row = &rows[order[a]];
        let mut position = String::new();
        push_signed_decimal(&mut position, row.position as i64);
        proof {
            assert(position@ =~= signed_decimal(row.position as int));
        }
        push_standing_line(&mut out, position.as_str(), row.driver_name.as_str(), row.time.as_str());
        a += 1;
        proof {
            assert(out@ =~= head + session_lines(rows@, order@, a as int));
        }
    }
    proof {
        assert(out@ =~= results_text(results.title@, results.standings@));
    }
    out
}

/// Why a timing feed could not be turned into a classification.
#[derive(Debug, Clone, PartialEq, Eq)]
pub enum FetchError {
    /// No driver of the reference table has this racing number.
    DriverNotFound(String),
    /// This text is not a position.
    InvalidPosition(String),
}

impl FetchError {
    /// The error as a sentence for the log.
    pub fn message(&self) -> (r: String)
        ensures
            r@ == (match *self {
                FetchError::DriverNotFound(number) => "Driver not found for racing number: "@
                    + number@,
                FetchError::InvalidPosition(position) => "Invalid position: "@ + position@,
            }),
    {
        match self {
            FetchError::DriverNotFound(number) => {
                let mut out = String::from_str("Driver not found for racing number: ");
                out.append(number.as_str());
                out
            },
            FetchError::InvalidPosition(position) => {
                let mut out = String::from_str("Invalid position: ");
                out.append(position.as_str());
                out
            },
        }
    }
}

/// What the timing feed says of one driver.
#[derive(Default, Debug, Clone, PartialEq, Eq)]
pub struct TimingLine {
    pub position: String,
    pub racing_number: String,
    pub best_lap_time: String,
    pub interval_to_position_ahead: Option<String>,
}

/// The racing number that a timing line names; `-1`, which no driver has, if
/// the text is no number.
pub open spec fn racing_number_of(text: Seq<char>) -> int {
    match parse_int(text, i64::MIN as int, i64::MAX as int) {
        Some(n) => n,
        None => -1,
    }
}

/// The position that a timing line names, if the text is one.
pub open spec fn position_of(text: Seq<char>) -> Option<int> {
    parse_int(text, i8::MIN as int, i8::MAX as int)
}

/// Whether `d` is the first row of the driver table with this number.
pub open spec fn is_first_driver(drivers: Seq<DriverRef>, number: int, d: int) -> bool {
    &&& 0 <= d < drivers.len()
    &&& drivers[d].racing_number == number
    &&& forall|j: int| 0 <= j < d ==> (#[trigger] drivers[j]).racing_number != number
}

/// Whether `row` is the timing line joined with its driver.
pub open spec fn is_joined_row(line: TimingLine, drivers: Seq<DriverRef>, row: F1APIDriverStanding) -> bool {
    &&& position_of(line.position@) == Some(row.position as int)
    &&& row.time == line.best_lap_time
    &&& row.difference == line.interval_to_position_ahead
    &&& exists|d: int| #[trigger]
        is_first_driver(drivers, racing_number_of(line.racing_number@), d) && row.driver_name
            == drivers[d].tla && row.team_name == drivers[d].team_name
}

/// Whether the timing line has a driver and a position.
pub open spec fn line_joins(line: TimingLine, drivers: Seq<DriverRef>) -> bool {
    has_driver(drivers, racing_number_of(line.racing_number@)) && position_of(line.position@) is Some
}

/// The error that a timing line without a driver or without a position gives.
pub open spec fn line_error(line: TimingLine, drivers: Seq<DriverRef>) -> FetchError {
    if !has_driver(drivers, racing_number_of(line.racing_number@)) {
        FetchError::DriverNotFound(line.racing_number)
    } else {
        FetchError::InvalidPosition(line.position)
    }
}

/// Whether `outcome` is what joining the lines with the driver table gives:
/// every line joined, in the order of the feed, or the error of the first
/// line that cannot be joined.
pub open spec fn is_join_of(
    lines: Seq<TimingLine>,
    drivers: Seq<DriverRef>,
    outcome: Result<Vec<F1APIDriverStanding>, FetchError>,
) -> bool {
    match outcome {
        Ok(rows) => rows@.len() == lines.len() && forall|k: int|
            0 <= k < lines.len() ==> is_joined_row(lines[k], drivers, #[trigger] rows@[k]),
        Err(e) => exists|k: int|
            0 <= k < lines.len() && !line_joins(#[trigger] lines[k], drivers) && e == line_error(
                lines[k],
                drivers,
            ) && forall|j: int| 0 <= j < k ==> line_joins(#[trigger] lines[j], drivers),
    }
}

fn copy_optional(text: &Option<String>) -> (r: Option<String>)
    ensures
        r == *text,
{
    match text {
        Some(t) => Some(t.clone()),
        None => None,
    }
}

/// Joins each timing line with the driver who has its racing number. A line
/// without a driver, or without a position, fails the whole table.
pub fn extract_position_and_number(lines: &Vec<TimingLine>, store: &Store) -> (r: Result<
    Vec<F1APIDriverStanding>,
    FetchError,
>)
    ensures
        is_join_of(lines@, store.drivers@, r),
{
    let mut rows: Vec<F1APIDriverStanding> = Vec::new();
    let mut k: usize = 0;
    while k < lines.len()
        invariant
            k <= lines@.len(),
            rows@.len() == k,
            forall|j: int|
                0 <= j < k ==> is_joined_row(lines@[j], store.drivers@, #[trigger] rows@[j]),
            forall|j: int| 0 <= j < k ==> line_joins(#[trigger] lines@[j], store.drivers@),
        decreases lines@.len() - k,
    {
        let line = &lines[k];
        let digits = chars_of(line.racing_number.as_str());
        proof {
            assert(digits@.subrange(0, digits@.len() as int) =~= line.racing_number@);
        }
        let number: i64 = match parse_int_in(&digits, 0, digits.len(), i64::MIN, i64::MAX) {
            Some(n) => n,
            None => -1,
        };
        let d: usize = match store.find_driver(number) {
            Some(d) => d,
            None => {
                return Err(FetchError::DriverNotFound(line.racing_number.clone()));
            },
        };
        let place = chars_of(line.position.as_str());
        proof {
            assert(place@.subrange(0, place@.len() as int) =~= line.position@);
        }
        let position: i8 = match parse_int_in(&place, 0, place.len(), -128, 127) {
            Some(p) => p as i8,
            None => {
                return Err(FetchError::InvalidPosition(line.position.clone()));
            },
        };
        let row = F1APIDriverStanding {
            position,
            driver_name: store.drivers[d].tla.clone(),
            team_name: store.drivers[d].team_name.clone(),
            time: line.best_lap_time.clone(),
            difference: copy_optional(&line.interval_to_position_ahead),
        };
        proof {
            assert(is_first_driver(store.drivers@, racing_number_of(line.racing_number@), d as int));
        }
        rows.push(row);
        k += 1;
    }
    Ok(rows)
}

/// The title under which a session's classification is delivered: the
/// official name of the meeting, then the name of the session.
pub fn session_title(session: &SessionInfo) -> (r: String)
    ensures
        r@ == session.meeting.official_name@ + " "@ + session.name@,
{
    let mut out = session.meeting.official_name.clone();
    out.append(" ");
    out.append(session.name.as_str());
    out
}

/// The path of the session that the timing service reports, and whether the
/// session is complete.
pub fn read_current_event(session: &SessionInfo) -> (r: (String, bool))
    ensures
        r.0 == session.path,
        r.1 == (session.archive_status.status@ == "Complete"@),
{
    (session.path.clone(), crate::text::str_eq(session.archive_status.status.as_str(), "Complete"))
}

/// The delivery message of the classification kept under `path`, if one is
/// kept there.
pub fn fetch_results(store: &Store, path: &str) -> (r: Option<String>)
    ensures
        r is Some <==> has_path(store.results@, path@),
        r matches Some(text) ==> exists|i: int|
            0 <= i < store.results@.len() && (#[trigger] store.results@[i]).path@ == path@ && text@
                == results_text(store.results@[i].data.title@, store.results@[i].data.standings@),
{
    match store.find_result(path) {
        Some(i) => Some(format_results(&store.results[i].data)),
        None => None,
    }
}

/// Whether `after` is `before` with one more result at the end: the
/// classification that `lines` give under `title`, kept under `path` at the
/// time `now` and tied to the session that started last before `now`.
pub open spec fn is_recorded(
    before: Store,
    after: Store,
    path: Seq<char>,
    title: Seq<char>,
    lines: Seq<TimingLine>,
    now: int,
) -> bool {
    &&& after.results@.len() == before.results@.len() + 1
    &&& after.results@.drop_last() == before.results@
    &&& after.results@.last().path@ == path
    &&& after.results@.last().data.title@ == title
    &&& after.results@.last().create_time == now
    &&& is_join_of(lines, before.drivers@, Ok(after.results@.last().data.standings))
    &&& match after.results@.last().event {
        Some(i) => is_latest_session(before.events@, now, i as int),
        None => forall|j: int|
            0 <= j < before.events@.len() ==> !is_past_session(#[trigger] before.events@[j], now),
    }
}

/// Keeps the classification of the session at `path`, made of the timing
/// lines and the driver table, and gives its delivery message. Where the path
/// is kept already nothing changes and there is no message; where a line
/// cannot be joined nothing changes and the error says which.
pub fn record_results(
    store: &mut Store,
    path: &str,
    title: String,
    lines: &Vec<TimingLine>,
    now: i64,
) -> (r: Result<Option<String>, FetchError>)
    requires
        old(store).wf(),
    ensures
        final(store).wf(),
        final(store).events == old(store).events,
        final(store).drivers == old(store).drivers,
        final(store).channels == old(store).channels,
        final(store).alerts == old(store).alerts,
        final(store).driver_standings == old(store).driver_standings,
        final(store).constructor_standings == old(store).constructor_standings,
        has_path(final(store).results@, path@) || r is Err,
        match r {
            Ok(None) => has_path(old(store).results@, path@) && final(store).results == old(
                store,
            ).results,
            Ok(Some(text)) => !has_path(old(store).results@, path@) && is_recorded(
                *old(store),
                *final(store),
                path@,
                title@,
                lines@,
                now as int,
            ) && text@ == results_text(title@, final(store).results@.last().data.standings@),
            Err(e) => !has_path(old(store).results@, path@) && is_join_of(
                lines@,
                old(store).drivers@,
                Err(e),
            ) && final(store).results == old(store).results,
        },
{
    if store.find_result(path).is_some() {
        return Ok(None);
    }
    let standings = match extract_position_and_number(lines, store) {
        Ok(rows) => rows,
        Err(e) => {
            return Err(e);
        },
    };
    let data = SessionResults { title, standings };
    let text = format_results(&data);
    let event = store.latest_session_index(now);
    store.insert_result(String::from_str(path), data, event, now);
    proof {
        assert(final(store).results@.drop_last() =~= old(store).results@);
    }
    Ok(Some(text))
}

/// One row of a championship table as it is shown: the key by which it is
/// put in order, and the three texts of its line.
#[derive(Debug, Clone, PartialEq, Eq)]
pub struct StandingRow {
    pub key: i64,
    pub position: String,
    pub name: String,
    pub score: String,
}

/// The key of a championship position: its number, or the greatest key for
/// a text that is no number, which puts such rows last.
pub open spec fn position_key(text: Seq<char>) -> i64 {
    match parse_int(text, i64::MIN as int, i64::MAX as int) {
        Some(n) => n as i64,
        None => i64::MAX,
    }
}

/// The keys of the rows of a table.
pub open spec fn row_keys(rows: Seq<StandingRow>) -> Seq<i64> {
    Seq::new(rows.len(), |i: int| rows[i].key)
}

/// The first `count` rows of a table in the given order, as text.
pub open spec fn table_lines(rows: Seq<StandingRow>, order: Seq<usize>, count: int) -> Seq<char>
    decreases count,
{
    if count <= 0 {
        Seq::empty()
    } else {
        let row = rows[order[count - 1] as int];
        table_lines(rows, order, count - 1) + standing_line(row.position@, row.name@, row.score@)
    }
}

/// A championship message: the heading, then the ten best placed rows by
/// ascending key, rows with equal keys in the order of the feed.
pub open spec fn table_text(heading: Seq<char>, rows: Seq<StandingRow>) -> Seq<char> {
    heading + table_lines(rows, sorted_rows(row_keys(rows)), rows_shown(rows.len() as int))
}

/// Formats a championship table under its heading.
pub fn format_table(heading: String, rows: &Vec<StandingRow>) -> (r: String)
    ensures
        r@ == table_text(heading@, rows@),
{
    let mut keys: Vec<i64> = Vec::new();
    let mut i: usize = 0;
    while i < rows.len()
        invariant
            i <= rows@.len(),
            keys@.len() == i,
            forall|j: int| 0 <= j < i ==> #[trigger] keys@[j] == rows@[j].key,
        decreases rows@.len() - i,
    {
        keys.push(rows[i].key);
        i += 1;
    }
    proof {
        assert(keys@ =~= row_keys(rows@));
    }
    let order = stable_order(&keys);
    proof {
        stable_order_is_unique(keys@, order@, sorted_rows(keys@));
    }
    let mut out = heading;
    let shown: usize = if rows.len() < 10 {
        rows.len()
    } else {
        10
    };
    let mut a: usize = 0;
    while a < shown
        invariant
            a <= shown <= rows@.len(),
            is_stable_order(keys@, order@),
            keys@.len() == rows@.len(),
            out@ == heading@ + table_lines(rows@, order@, a as int),
        decreases shown - a,
    {
        let row = &rows[order[a]];
        push_standing_line(&mut out, row.position.as_str(), row.name.as_str(), row.score.as_str());
        a += 1;
        proof {
            assert(out@ =~= heading@ + table_lines(rows@, order@, a as int));
        }
    }
    out
}

fn key_of_position(text: &str) -> (r: i64)
    ensures
        r == position_key(text@),
{
    let digits = chars_of(text);
    proof {
        assert(digits@.subrange(0, digits@.len() as int) =~= text@);
    }
    match parse_int_in(&digits, 0, digits.len(), i64::MIN, i64::MAX) {
        Some(n) => n,
        None => i64::MAX,
    }
}

/// The rows of a drivers championship: position, driver code and points.
pub open spec fn driver_rows(list: Seq<ErgastAPIDriverStanding>) -> Seq<StandingRow> {
    Seq::new(
        list.len(),
        |i: int|
            StandingRow {
                key: position_key(list[i].position@),
                position: list[i].position,
                name: list[i].driver.code,
                score: list[i].points,
            },
    )
}

/// The rows of a constructors championship: position, name and points.
pub open spec fn constructor_rows(list: Seq<ConstructorStanding>) -> Seq<StandingRow> {
    Seq::new(
        list.len(),
        |i: int|
            StandingRow {
                key: position_key(list[i].position@),
                position: list[i].position,
                name: list[i].constructor.name,
                score: list[i].points,
            },
    )
}

/// The drivers championship message, if the answer holds a standings list.
pub open spec fn wdc_text(standings: CurrentDriverStandings) -> Option<Seq<char>> {
    let table = standings.mrdata.standings_table;
    if table.standings_lists@.len() == 0 {
        None
    } else {
        Some(
            table_text(
                "🏆 \x02 FORMULA 1 "@ + table.season@ + " WDC Standings\x02:"@,
                driver_rows(table.standings_lists@[0].driver_standings@),
            ),
        )
    }
}

/// The constructors championship message, if the answer holds a standings list.
pub open spec fn wcc_text(standings: CurrentConstructorStandings) -> Option<Seq<char>> {
    let table = standings.mrdata.standings_table;
    if table.standings_lists@.len() == 0 {
        None
    } else {
        Some(
            table_text(
                "🔧 \x02 FORMULA 1 "@ + table.season@ + " WCC Standings\x02:"@,
                constructor_rows(table.standings_lists@[0].constructor_standings@),
            ),
        )
    }
}

/// What a text is, if there is one.
pub open spec fn text_view(text: Option<String>) -> Option<Seq<char>> {
    match text {
        Some(t) => Some(t@),
        None => None,
    }
}

/// Formats the drivers championship from its first standings list.
pub fn format_wdc_standings(standings: &CurrentDriverStandings) -> (r: Option<String>)
    ensures
        text_view(r) == wdc_text(*standings),
{
    let table = &standings.mrdata.standings_table;
    if table.standings_lists.len() == 0 {
        return None;
    }
    let list = &table.standings_lists[0].driver_standings;
    let mut rows: Vec<StandingRow> = Vec::new();
    let mut i: usize = 0;
    while i < list.len()
        invariant
            i <= list@.len(),
            rows@.len() == i,
            forall|j: int| 0 <= j < i ==> #[trigger] rows@[j] == driver_rows(list@)[j],
        decreases list@.len() - i,
    {
        rows.push(
            StandingRow {
                key: key_of_position(list[i].position.as_str()),
                position: list[i].position.clone(),
                name: list[i].driver.code.clone(),
                score: list[i].points.clone(),
            },
        );
        i += 1;
    }
    proof {
        assert(rows@ =~= driver_rows(list@));
    }
    let mut heading = String::from_str("🏆 \x02 FORMULA 1 ");
    heading.append(table.season.as_str());
    heading.append(" WDC Standings\x02:");
    Some(format_table(heading, &rows))
}

/// Formats the constructors championship from its first standings list.
pub fn format_wcc_standings(standings: &CurrentConstructorStandings) -> (r: Option<String>)
    ensures
        text_view(r) == wcc_text(*standings),
{
    let table = &standings.mrdata.standings_table;
    if table.standings_lists.len() == 0 {
        return None;
    }
    let list = &table.standings_lists[0].constructor_standings;
    let mut rows: Vec<StandingRow> = Vec::new();
    let mut i: usize = 0;
    while i < list.len()
        invariant
            i <= list@.len(),
            rows@.len() == i,
            forall|j: int| 0 <= j < i ==> #[trigger] rows@[j] == constructor_rows(list@)[j],
        decreases list@.len() - i,
    {
        rows.push(
            StandingRow {
                key: key_of_position(list[i].position.as_str()),
                position: list[i].position.clone(),
                name: list[i].constructor.name.clone(),
                score: list[i].points.clone(),
            },
        );
        i += 1;
    }
    proof {
        assert(rows@ =~= constructor_rows(list@));
    }
    let mut heading = String::from_str("🔧 \x02 FORMULA 1 ");
    heading.append(table.season.as_str());
    heading.append(" WCC Standings\x02:");
    Some(format_table(heading, &rows))
}

/// What a championship command finds in the store.
#[derive(Debug, Clone, PartialEq, Eq)]
pub enum StandingsReply {
    /// The message to send.
    Text(String),
    /// Nothing is cached: the standings have to be fetched and stored first.
    NeedsFetch,
    /// What is cached holds no standings list.
    Unavailable,
}

/// Keeps the drivers championship in place of what was cached before.
pub fn fetch_wdc_standings(store: &mut Store, standings: CurrentDriverStandings)
    ensures
        final(store).driver_standings == Some(standings),
        final(store).events == old(store).events,
        final(store).results == old(store).results,
        final(store).drivers == old(store).drivers,
        final(store).channels == old(store).channels,
        final(store).alerts == old(store).alerts,
        final(store).constructor_standings == old(store).constructor_standings,
{
    store.driver_standings = Some(standings);
}

/// Keeps the constructors championship in place of what was cached before.
pub fn fetch_wcc_standings(store: &mut Store, standings: CurrentConstructorStandings)
    ensures
        final(store).constructor_standings == Some(standings),
        final(store).events == old(store).events,
        final(store).results == old(store).results,
        final(store).drivers == old(store).drivers,
        final(store).channels == old(store).channels,
        final(store).alerts == old(store).alerts,
        final(store).driver_standings == old(store).driver_standings,
{
    store.constructor_standings = Some(standings);
}

/// The answer to the drivers command from what is cached.
pub fn return_wdc_standings(store: &Store) -> (r: StandingsReply)
    ensures
        match store.driver_standings {
            None => r == StandingsReply::NeedsFetch,
            Some(cached) => match wdc_text(cached) {
                Some(text) => r matches StandingsReply::Text(t) && t@ == text,
                None => r == StandingsReply::Unavailable,
            },
        },
{
    match &store.driver_standings {
        None => StandingsReply::NeedsFetch,
        Some(cached) => match format_wdc_standings(cached) {
            Some(text) => StandingsReply::Text(text),
            None => StandingsReply::Unavailable,
        },
    }
}

/// The answer to the constructors command from what is cached.
pub fn return_wcc_standings(store: &Store) -> (r: StandingsReply)
    ensures
        match store.constructor_standings {
            None => r == StandingsReply::NeedsFetch,
            Some(cached) => match wcc_text(cached) {
                Some(text) => r matches StandingsReply::Text(t) && t@ == text,
                None => r == StandingsReply::Unavailable,
            },
        },
{
    match &store.constructor_standings {
        None => StandingsReply::NeedsFetch,
        Some(cached) => match format_wcc_standings(cached) {
            Some(text) => StandingsReply::Text(text),
            None => StandingsReply::Unavailable,
        },
    }
}

/// The entry of the driver table that a driver of the list gives, if their
/// racing number is a number.
pub open spec fn listed_driver(driver: DriverList) -> Option<DriverRef> {
    match parse_int(driver.racing_number@, i64::MIN as int, i64::MAX as int) {
        Some(n) => Some(
            DriverRef { racing_number: n as i64, tla: driver.tla, team_name: driver.team_name },
        ),
        None => None,
    }
}

/// The driver table after the first `n` drivers of the list are entered one
/// after the other.
pub open spec fn with_drivers(drivers: Seq<DriverRef>, list: Seq<DriverList>, n: int) -> Seq<DriverRef>
    decreases n,
{
    if n <= 0 {
        drivers
    } else {
        let before = with_drivers(drivers, list, n - 1);
        match listed_driver(list[n - 1]) {
            Some(d) => driver_upserted(before, d),
            None => before,
        }
    }
}

/// Enters every driver of the list into the driver table under their racing
/// number. A driver whose racing number is no number is passed over.
pub fn fetch_driver_list(store: &mut Store, list: &Vec<DriverList>)
    requires
        old(store).wf(),
    ensures
        final(store).wf(),
        final(store).events == old(store).events,
        final(store).results == old(store).results,
        final(store).channels == old(store).channels,
        final(store).alerts == old(store).alerts,
        final(store).driver_standings == old(store).driver_standings,
        final(store).constructor_standings == old(store).constructor_standings,
        final(store).drivers@ == with_drivers(old(store).drivers@, list@, list@.len() as int),
{
    let mut i: usize = 0;
    while i < list.len()
        invariant
            i <= list@.len(),
            store.wf(),
            store.events == old(store).events,
            store.results == old(store).results,
            store.channels == old(store).channels,
            store.alerts == old(store).alerts,
            store.driver_standings == old(store).driver_standings,
            store.constructor_standings == old(store).constructor_standings,
            store.drivers@ == with_drivers(old(store).drivers@, list@, i as int),
        decreases list@.len() - i,
    {
        let digits = chars_of(list[i].racing_number.as_str());
        proof {
            assert(digits@.subrange(0, digits@.len() as int) =~= list@[i as int].racing_number@);
        }
        if let Some(n) = parse_int_in(&digits, 0, digits.len(), i64::MIN, i64::MAX) {
            store.upsert_driver(
                DriverRef {
                    racing_number: n,
                    tla: list[i].tla.clone(),
                    team_name: list[i].team_name.clone(),
                },
            );
        }
        i += 1;
    }
}

} // verus!
