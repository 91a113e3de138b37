use vstd::prelude::*;
use vstd::string::*;

use crate::model::{AggregationResult, RepositoryRecord};

verus! {

/// The character of a decimal digit.
pub open spec fn digit_char(d: nat) -> char {
    if d == 0 {
        '0'
    } else if d == 1 {
        '1'
    } else if d == 2 {
        '2'
    } else if d == 3 {
        '3'
    } else if d == 4 {
        '4'
    } else if d == 5 {
        '5'
    } else if d == 6 {
        '6'
    } else if d == 7 {
        '7'
    } else if d == 8 {
        '8'
    } else {
        '9'
    }
}

/// The decimal writing of `n`, without leading zeros.
pub open spec fn decimal(n: nat) -> Seq<char>
    decreases n,
{
    if n < 10 {
        seq![digit_char(n)]
    } else {
        decimal(n / 10).push(digit_char(n % 10))
    }
}

/// `k` spaces.
pub open spec fn spaces(k: nat) -> Seq<char> {
    Seq::new(k, |i: int| ' ')
}

/// `s` after as many spaces as make it `w` characters wide.
pub open spec fn pad_left(s: Seq<char>, w: nat) -> Seq<char> {
    spaces((w - s.len()) as nat) + s
}

/// `s` before as many spaces as make it `w` characters wide.
pub open spec fn pad_right(s: Seq<char>, w: nat) -> Seq<char> {
    s + spaces((w - s.len()) as nat)
}

/// What stands in the description column: the description, or `-`.
pub open spec fn description_text(d: Option<String>) -> Seq<char> {
    match d {
        Some(s) => s@,
        None => seq!['-'],
    }
}

/// The widest star count, in characters.
pub open spec fn star_width(s: Seq<RepositoryRecord>) -> nat
    decreases s.len(),
{
    if s.len() == 0 {
        0
    } else {
        let w = decimal(s.last().star_count as nat).len();
        let rest = star_width(s.drop_last());
        if w > rest { w } else { rest }
    }
}

/// The widest name, in characters.
pub open spec fn name_width(s: Seq<RepositoryRecord>) -> nat
    decreases s.len(),
{
    if s.len() == 0 {
        0
    } else {
        let w = s.last().name@.len();
        let rest = name_width(s.drop_last());
        if w > rest { w } else { rest }
    }
}

/// The two spaces between columns.
pub open spec fn gap() -> Seq<char> {
    seq![' ', ' ']
}

/// One line of the listing: the star count right-aligned, the name
/// left-aligned, then the description.
pub open spec fn entry_line(r: RepositoryRecord, ws: nat, wn: nat) -> Seq<char> {
    pad_left(decimal(r.star_count as nat), ws) + gap() + pad_right(r.name@, wn) + gap()
        + description_text(r.description)
}

/// The words before the total on the last line.
pub open spec fn total_prefix() -> Seq<char> {
    seq!['T', 'o', 't', 'a', 'l', ' ', 's', 't', 'a', 'r', 's', ':', ' ']
}

/// The last line of the listing.
pub open spec fn total_line(total: nat) -> Seq<char> {
    total_prefix() + decimal(total)
}

/// The plain listing of a result: one line per retained repository, columns
/// as wide as their widest entry, then the total.
pub open spec fn plain_lines(s: Seq<RepositoryRecord>, total: nat) -> Seq<Seq<char>> {
    Seq::new(s.len(), |i: int| entry_line(s[i], star_width(s), name_width(s))).push(
        total_line(total),
    )
}

proof fn lemma_decimal_len(n: nat)
    ensures
        decimal(n).len() >= 1,
        n < 10 ==> decimal(n).len() == 1,
        n >= 10 ==> decimal(n).len() == decimal(n / 10).len() + 1,
        decimal(n).len() <= n + 1,
    decreases n,
{
    if n >= 10 {
        lemma_decimal_len(n / 10);
    }
}

fn digit_str(d: u64) -> (r: &'static str)
    requires
        d < 10,
    ensures
        r@ == seq![digit_char(d as nat)],
{
    proof {
        reveal_strlit("0");
        reveal_strlit("1");
        reveal_strlit("2");
        reveal_strlit("3");
        reveal_strlit("4");
        reveal_strlit("5");
        reveal_strlit("6");
        reveal_strlit("7");
        reveal_strlit("8");
        reveal_strlit("9");
    }
    if d == 0 {
        "0"
    } else if d == 1 {
        "1"
    } else if d == 2 {
        "2"
    } else if d == 3 {
        "3"
    } else if d == 4 {
        "4"
    } else if d == 5 {
        "5"
    } else if d == 6 {
        "6"
    } else if d == 7 {
        "7"
    } else if d == 8 {
        "8"
    } else {
        "9"
    }
}

fn push_decimal(out: &mut String, n: u64)
    ensures
        final(out)@ == old(out)@ + decimal(n as nat),
    decreases n,
{
    if n >= 10 {
        push_decimal(out, n / 10);
    }
    out.append(digit_str(n % 10));
    proof {
        if n >= 10 {
            assert(old(out)@ + decimal((n / 10) as nat) + seq![digit_char((n % 10) as nat)] =~= old(
            out)@ + decimal(n as nat));
        } else {
            assert(old(out)@ + seq![digit_char((n % 10) as nat)] =~= old(out)@ + decimal(n as nat));
        }
    }
}

/// The decimal writing of `n`.
pub fn decimal_string(n: u64) -> (r: String)
    ensures
        r@ == decimal(n as nat),
{
    let mut out = String::new();
    push_decimal(&mut out, n);
    proof {
        assert(Seq::<char>::empty() + decimal(n as nat) =~= decimal(n as nat));
    }
    out
}

fn push_spaces(out: &mut String, k: usize)
    ensures
        final(out)@ == old(out)@ + spaces(k as nat),
{
    proof {
        reveal_strlit(" ");
        assert(old(out)@ + spaces(0) =~= old(out)@);
    }
    let mut i: usize = 0;
    while i < k
        invariant
            i <= k,
            out@ == old(out)@ + spaces(i as nat),
        decreases k - i,
    {
        proof {
            reveal_strlit(" ");
        }
        out.append(" ");
        proof {
            assert(old(out)@ + spaces(i as nat) + seq![' '] =~= old(out)@ + spaces((i + 1) as nat));
        }
        i = i + 1;
    }
}

fn decimal_len(n: u32) -> (r: usize)
    ensures
        r == decimal(n as nat).len(),
    decreases n,
{
    proof {
        lemma_decimal_len(n as nat);
    }
    if n < 10 {
        1
    } else {
        proof {
            lemma_decimal_len((n / 10) as nat);
        }
        decimal_len(n / 10) + 1
    }
}

fn column_widths(s: &Vec<RepositoryRecord>) -> (r: (usize, usize))
    ensures
        r.0 == star_width(s@),
        r.1 == name_width(s@),
{
    let mut ws: usize = 0;
    let mut wn: usize = 0;
    let mut i: usize = 0;
    while i < s.len()
        invariant
            i <= s@.len(),
            ws == star_width(s@.subrange(0, i as int)),
            wn == name_width(s@.subrange(0, i as int)),
        decreases s.len() - i,
    {
        let w = decimal_len(s[i].star_count);
        let n = s[i].name.as_str().unicode_len();
        proof {
            assert(s@.subrange(0, i + 1).drop_last() =~= s@.subrange(0, i as int));
            assert(s@.subrange(0, i + 1).last() == s@[i as int]);
        }
        if w > ws {
            ws = w;
        }
        if n > wn {
            wn = n;
        }
        i = i + 1;
    }
    proof {
        assert(s@.subrange(0, i as int) =~= s@);
    }
    (ws, wn)
}

fn render_entry(r: &RepositoryRecord, ws: usize, wn: usize) -> (line: String)
    requires
        ws >= decimal(r.star_count as nat).len(),
        wn >= r.name@.len(),
    ensures
        line@ == entry_line(*r, ws as nat, wn as nat),
{
    proof {
        reveal_strlit("  ");
        reveal_strlit("-");
    }
    let digits = decimal_string(r.star_count as u64);
    let name_len = r.name.as_str().unicode_len();
    let mut line = String::new();
    push_spaces(&mut line, ws - digits.as_str().unicode_len());
    line.append(digits.as_str());
    line.append("  ");
    line.append(r.name.as_str());
    push_spaces(&mut line, wn - name_len);
    line.append("  ");
    match &r.description {
        Some(d) => line.append(d.as_str()),
        None => line.append("-"),
    }
    proof {
        assert(line@ =~= entry_line(*r, ws as nat, wn as nat));
    }
    line
}

proof fn lemma_widths_bound(s: Seq<RepositoryRecord>, i: int)
    requires
        0 <= i < s.len(),
    ensures
        star_width(s) >= decimal(s[i].star_count as nat).len(),
        name_width(s) >= s[i].name@.len(),
    decreases s.len(),
{
    if i < s.len() - 1 {
        lemma_widths_bound(s.drop_last(), i);
    }
}

/// The plain listing of `result`: one line per retained repository with its
/// star count, name and description (`-` when it has none), the columns
/// aligned, and a last line with the total.
pub fn render_plain(result: &AggregationResult) -> (lines: Vec<String>)
    ensures
        lines@.map_values(|l: String| l@) == plain_lines(
            result.retained_repositories@,
            result.total_star_count as nat,
        ),
{
    proof {
        reveal_strlit("Total stars: ");
    }
    let repos = &result.retained_repositories;
    let (ws, wn) = column_widths(repos);
    let ghost want = plain_lines(repos@, result.total_star_count as nat);
    let mut lines: Vec<String> = Vec::new();
    let mut i: usize = 0;
    while i < repos.len()
        invariant
            i <= repos@.len(),
            ws == star_width(repos@),
            wn == name_width(repos@),
            want == plain_lines(repos@, result.total_star_count as nat),
            lines@.len() == i,
            forall|j: int| 0 <= j < i ==> lines@[j]@ == want[j],
        decreases repos.len() - i,
    {
        proof {
            lemma_widths_bound(repos@, i as int);
            assert(want[i as int] == entry_line(repos@[i as int], ws as nat, wn as nat));
        }
        let line = render_entry(&repos[i], ws, wn);
        lines.push(line);
        i = i + 1;
    }
    let mut last = String::new();
    last.append("Total stars: ");
    push_decimal(&mut last, result.total_star_count);
    let ghost before = lines@;
    lines.push(last);
    proof {
        assert forall|j: int| 0 <= j < lines@.len() implies lines@[j]@ == want[j] by {
            if j < before.len() {
                assert(lines@[j] == before[j]);
            }
        }
        assert(want[repos@.len() as int] == total_line(result.total_star_count as nat));
        assert(Seq::<char>::empty() + total_prefix() + decimal(result.total_star_count as nat)
            =~= total_line(result.total_star_count as nat));
        assert(lines@.map_values(|l: String| l@) =~= want);
    }
    lines
}


/// The classes of characters that the columns of a listing are made of.
#[derive(Clone, Copy, Debug, PartialEq, Eq, Structural)]
pub enum CharClass {
    Space,
    Digit,
    NonSpace,
}

pub open spec fn in_class(c: char, k: CharClass) -> bool {
    match k {
        CharClass::Space => c == ' ',
        CharClass::Digit => '0' <= c <= '9',
        CharClass::NonSpace => c != ' ',
    }
}

/// The end of the run of characters of class `k` that starts at `i`.
pub open spec fn run_end(s: Seq<char>, i: int, k: CharClass) -> int
    decreases s.len() - i,
{
    if 0 <= i < s.len() && in_class(s[i], k) {
        run_end(s, i + 1, k)
    } else {
        i
    }
}

/// The value of a decimal digit character.
pub open spec fn digit_value(c: char) -> nat {
    if c == '1' {
        1
    } else if c == '2' {
        2
    } else if c == '3' {
        3
    } else if c == '4' {
        4
    } else if c == '5' {
        5
    } else if c == '6' {
        6
    } else if c == '7' {
        7
    } else if c == '8' {
        8
    } else if c == '9' {
        9
    } else {
        0
    }
}

/// The value of a run of decimal digits.
pub open spec fn value_of(s: Seq<char>) -> nat
    decreases s.len(),
{
    if s.len() == 0 {
        0
    } else {
        10 * value_of(s.drop_last()) + digit_value(s.last())
    }
}

/// Reads one entry line: leading spaces, the star count, spaces, then the
/// name up to the next space.
pub open spec fn parse_entry(s: Seq<char>) -> Option<(nat, Seq<char>)> {
    let a = run_end(s, 0, CharClass::Space);
    let b = run_end(s, a, CharClass::Digit);
    let c = run_end(s, b, CharClass::Space);
    let d = run_end(s, c, CharClass::NonSpace);
    if a < b && b < c && c < d {
        Some((value_of(s.subrange(a, b)), s.subrange(c, d)))
    } else {
        None
    }
}

/// Reads the total line: the words of `total_prefix`, then digits to the end.
pub open spec fn parse_total(s: Seq<char>) -> Option<nat> {
    let n = total_prefix().len() as int;
    if s.len() > n && s.subrange(0, n) == total_prefix() && run_end(s, n, CharClass::Digit)
        == s.len() {
        Some(value_of(s.subrange(n, s.len() as int)))
    } else {
        None
    }
}

/// Reads a listing: entry lines, then the total line.
pub open spec fn parse_listing(lines: Seq<Seq<char>>) -> Option<(Seq<(nat, Seq<char>)>, nat)> {
    if lines.len() >= 1 && (forall|i: int| 0 <= i < lines.len() - 1 ==> parse_entry(lines[i]) is Some)
        && parse_total(lines.last()) is Some {
        Some(
            (
                Seq::new((lines.len() - 1) as nat, |i: int| parse_entry(lines[i])->0),
                parse_total(lines.last())->0,
            ),
        )
    } else {
        None
    }
}

/// Every star count of a read listing fits a `u32`, its total a `u64`.
pub open spec fn listing_fits(l: (Seq<(nat, Seq<char>)>, nat)) -> bool {
    &&& forall|i: int| 0 <= i < l.0.len() ==> l.0[i].0 <= u32::MAX
    &&& l.1 <= u64::MAX
}

/// A name that a listing can carry and give back: not empty, no space in it.
pub open spec fn is_listable_name(name: Seq<char>) -> bool {
    name.len() > 0 && !name.contains(' ')
}

/// What a listing of `s` with `total` reads back as: each star count with its
/// name, and the total.
pub open spec fn listed(s: Seq<RepositoryRecord>, total: nat) -> (Seq<(nat, Seq<char>)>, nat) {
    (Seq::new(s.len(), |i: int| (s[i].star_count as nat, s[i].name@)), total)
}

proof fn lemma_run_end_at(s: Seq<char>, i: int, j: int, k: CharClass)
    requires
        0 <= i <= j <= s.len(),
        forall|m: int| i <= m < j ==> in_class(s[m], k),
        j == s.len() || !in_class(s[j], k),
    ensures
        run_end(s, i, k) == j,
    decreases j - i,
{
    if i < j {
        lemma_run_end_at(s, i + 1, j, k);
    }
}

proof fn lemma_run_end_bounds(s: Seq<char>, i: int, k: CharClass)
    requires
        0 <= i <= s.len(),
    ensures
        i <= run_end(s, i, k) <= s.len(),
        forall|m: int| i <= m < run_end(s, i, k) ==> in_class(s[m], k),
        run_end(s, i, k) == s.len() || !in_class(s[run_end(s, i, k)], k),
    decreases s.len() - i,
{
    if i < s.len() && in_class(s[i], k) {
        lemma_run_end_bounds(s, i + 1, k);
    }
}

proof fn lemma_decimal_digits(n: nat)
    ensures
        decimal(n).len() >= 1,
        forall|i: int| 0 <= i < decimal(n).len() ==> in_class(#[trigger] decimal(n)[i], CharClass::Digit),
        value_of(decimal(n)) == n,
    decreases n,
{
    let d = n % 10;
    assert(digit_value(digit_char(d)) == d);
    if n >= 10 {
        lemma_decimal_digits(n / 10);
        assert(decimal(n).drop_last() =~= decimal(n / 10));
        assert(n == 10 * (n / 10) + d);
        assert(decimal(n).last() == digit_char(d));
        assert(value_of(decimal(n)) == 10 * value_of(decimal(n / 10)) + digit_value(digit_char(d)));
    } else {
        assert(decimal(n).drop_last() =~= Seq::<char>::empty());
        assert(value_of(Seq::<char>::empty()) == 0);
        assert(d == n);
    }
}

proof fn lemma_entry_round_trip(r: RepositoryRecord, ws: nat, wn: nat)
    requires
        ws >= decimal(r.star_count as nat).len(),
        wn >= r.name@.len(),
        is_listable_name(r.name@),
    ensures
        parse_entry(entry_line(r, ws, wn)) == Some((r.star_count as nat, r.name@)),
{
    let d = decimal(r.star_count as nat);
    let name = r.name@;
    let p = (ws - d.len()) as nat;
    let q = (wn - name.len()) as nat;
    let line = entry_line(r, ws, wn);
    lemma_decimal_digits(r.star_count as nat);
    assert(line =~= spaces(p) + d + gap() + name + spaces(q) + gap() + description_text(
        r.description,
    ));
    let a = p as int;
    let b = a + d.len();
    let c = b + 2;
    let e = c + name.len();
    assert forall|m: int| 0 <= m < a implies in_class(line[m], CharClass::Space) by {}
    assert(line[a] == d[0]);
    lemma_run_end_at(line, 0, a, CharClass::Space);
    assert forall|m: int| a <= m < b implies in_class(line[m], CharClass::Digit) by {
        assert(line[m] == d[m - a]);
    }
    lemma_run_end_at(line, a, b, CharClass::Digit);
    lemma_run_end_at(line, b, c, CharClass::Space);
    assert(line[c] == name[0]);
    assert(name.contains(name[0]) ==> name[0] != ' ');
    assert forall|m: int| c <= m < e implies in_class(line[m], CharClass::NonSpace) by {
        assert(line[m] == name[m - c]);
        assert(name.contains(name[m - c]));
    }
    assert(line[e] == ' ');
    lemma_run_end_at(line, c, e, CharClass::NonSpace);
    assert(line.subrange(a, b) =~= d);
    assert(line.subrange(c, e) =~= name);
}

proof fn lemma_total_round_trip(total: nat)
    ensures
        parse_total(total_line(total)) == Some(total),
{
    let d = decimal(total);
    let line = total_line(total);
    lemma_decimal_digits(total);
    assert(line.subrange(0, 13) =~= total_prefix());
    assert forall|m: int| 13 <= m < line.len() implies in_class(line[m], CharClass::Digit) by {
        assert(line[m] == d[m - 13]);
    }
    lemma_run_end_at(line, 13, line.len() as int, CharClass::Digit);
    assert(line.subrange(13, line.len() as int) =~= d);
}

/// Reading back the plain listing of a result gives each retained
/// repository's star count and name, in order, and the total, as long as
/// every name is non-empty and holds no space.
pub proof fn lemma_plain_round_trip(s: Seq<RepositoryRecord>, total: u64)
    requires
        forall|i: int| 0 <= i < s.len() ==> is_listable_name(#[trigger] s[i].name@),
    ensures
        parse_listing(plain_lines(s, total as nat)) == Some(listed(s, total as nat)),
        listing_fits(listed(s, total as nat)),
{
    let lines = plain_lines(s, total as nat);
    assert forall|i: int| 0 <= i < lines.len() - 1 implies parse_entry(lines[i]) == Some(
        (s[i].star_count as nat, s[i].name@),
    ) by {
        lemma_widths_bound(s, i);
        lemma_entry_round_trip(s[i], star_width(s), name_width(s));
    }
    lemma_total_round_trip(total as nat);
    let (entries, sum) = parse_listing(lines)->0;
    assert(entries =~= listed(s, total as nat).0);
}


/// One entry of a listing read back: a star count and a name.
pub struct ListedRepository {
    pub star_count: u32,
    pub name: String,
}

/// A listing read back: its entries in order, and its total.
pub struct PlainListing {
    pub entries: Vec<ListedRepository>,
    pub total_star_count: u64,
}

/// The star counts and names of a listing read back, and its total.
pub open spec fn listing_view(l: PlainListing) -> (Seq<(nat, Seq<char>)>, nat) {
    (
        l.entries@.map_values(|e: ListedRepository| (e.star_count as nat, e.name@)),
        l.total_star_count as nat,
    )
}

/// The text of each line.
pub open spec fn texts(lines: Seq<String>) -> Seq<Seq<char>> {
    lines.map_values(|l: String| l@)
}

fn is_in_class(c: char, k: CharClass) -> (r: bool)
    ensures
        r == in_class(c, k),
{
    match k {
        CharClass::Space => c == ' ',
        CharClass::Digit => '0' <= c && c <= '9',
        CharClass::NonSpace => c != ' ',
    }
}

fn class_end(s: &str, n: usize, i: usize, k: CharClass) -> (r: usize)
    requires
        n == s@.len(),
        i <= n,
    ensures
        r == run_end(s@, i as int, k),
{
    let mut j: usize = i;
    while j < n && is_in_class(s.get_char(j), k)
        invariant
            i <= j <= n == s@.len(),
            run_end(s@, i as int, k) == run_end(s@, j as int, k),
        decreases n - j,
    {
        j = j + 1;
    }
    j
}

fn digit_of(c: char) -> (r: u64)
    ensures
        r == digit_value(c),
{
    if c == '1' {
        1
    } else if c == '2' {
        2
    } else if c == '3' {
        3
    } else if c == '4' {
        4
    } else if c == '5' {
        5
    } else if c == '6' {
        6
    } else if c == '7' {
        7
    } else if c == '8' {
        8
    } else if c == '9' {
        9
    } else {
        0
    }
}

proof fn lemma_value_grows(s: Seq<char>, a: int, i: int, j: int)
    requires
        0 <= a <= i <= j <= s.len(),
    ensures
        value_of(s.subrange(a, i)) <= value_of(s.subrange(a, j)),
    decreases j - i,
{
    if i < j {
        lemma_value_grows(s, a, i, j - 1);
        assert(s.subrange(a, j).drop_last() =~= s.subrange(a, j - 1));
    }
}

fn number_in(s: &str, a: usize, b: usize, max: u64) -> (r: Option<u64>)
    requires
        a <= b <= s@.len(),
        max >= 9,
    ensures
        r == (if value_of(s@.subrange(a as int, b as int)) <= max {
            Some(value_of(s@.subrange(a as int, b as int)) as u64)
        } else {
            None::<u64>
        }),
{
    let mut v: u64 = 0;
    let mut i: usize = a;
    proof {
        assert(s@.subrange(a as int, a as int) =~= Seq::<char>::empty());
    }
    while i < b
        invariant
            a <= i <= b <= s@.len(),
            max >= 9,
            v == value_of(s@.subrange(a as int, i as int)),
            v <= max,
        decreases b - i,
    {
        let d = digit_of(s.get_char(i));
        proof {
            assert(s@.subrange(a as int, i + 1).drop_last() =~= s@.subrange(a as int, i as int));
            assert(s@.subrange(a as int, i + 1).last() == s@[i as int]);
            assert(d <= 9);
        }
        if v > (max - d) / 10 {
            proof {
                let x = (max - d) as int;
                assert(10 * v + d > max) by (nonlinear_arith)
                    requires
                        v > x / 10,
                        x == max - d,
                        x >= 0,
                ;
                lemma_value_grows(s@, a as int, i + 1, b as int);
            }
            return None;
        }
        proof {
            let x = (max - d) as int;
            assert(10 * v + d <= max) by (nonlinear_arith)
                requires
                    v <= x / 10,
                    x == max - d,
                    x >= 0,
            ;
        }
        v = v * 10 + d;
        i = i + 1;
    }
    Some(v)
}

/// An entry line whose star count fits a `u32`.
pub open spec fn entry_fits(s: Seq<char>) -> bool {
    match parse_entry(s) {
        Some((v, _)) => v <= u32::MAX,
        None => false,
    }
}

/// Reads one entry line of a listing.
pub fn parse_entry_line(line: &String) -> (r: Option<ListedRepository>)
    ensures
        r is Some <==> entry_fits(line@),
        r is Some ==> parse_entry(line@) == Some(((r->0).star_count as nat, (r->0).name@)),
{
    let s = line.as_str();
    let n = s.unicode_len();
    let a = class_end(s, n, 0, CharClass::Space);
    proof {
        lemma_run_end_bounds(s@, 0, CharClass::Space);
    }
    let b = class_end(s, n, a, CharClass::Digit);
    proof {
        lemma_run_end_bounds(s@, a as int, CharClass::Digit);
    }
    let c = class_end(s, n, b, CharClass::Space);
    proof {
        lemma_run_end_bounds(s@, b as int, CharClass::Space);
    }
    let d = class_end(s, n, c, CharClass::NonSpace);
    proof {
        lemma_run_end_bounds(s@, c as int, CharClass::NonSpace);
    }
    if a < b && b < c && c < d {
        match number_in(s, a, b, 0xffff_ffff) {
            Some(v) => {
                let name = String::from_str(s.substring_char(c, d));
                Some(ListedRepository { star_count: v as u32, name })
            },
            None => None,
        }
    } else {
        None
    }
}

/// Reads the total line of a listing.
pub fn parse_total_line(line: &String) -> (r: Option<u64>)
    ensures
        r == (match parse_total(line@) {
            Some(v) => if v <= u64::MAX {
                Some(v as u64)
            } else {
                None::<u64>
            },
            None => None::<u64>,
        }),
{
    let prefix = "Total stars: ";
    proof {
        reveal_strlit("Total stars: ");
        assert(prefix@ =~= total_prefix());
    }
    let s = line.as_str();
    let n = s.unicode_len();
    if n <= 13 {
        return None;
    }
    let mut i: usize = 0;
    while i < 13
        invariant
            i <= 13 < n == s@.len(),
            s@ == line@,
            prefix@ == total_prefix(),
            forall|m: int| 0 <= m < i ==> s@[m] == total_prefix()[m],
        decreases 13 - i,
    {
        if s.get_char(i) != prefix.get_char(i) {
            proof {
                assert(s@.subrange(0, 13)[i as int] != total_prefix()[i as int]);
                assert(total_prefix().len() == 13);
                assert(s@.subrange(0, 13) != total_prefix());
            }
            return None;
        }
        i = i + 1;
    }
    proof {
        assert(s@.subrange(0, 13) =~= total_prefix());
    }
    let e = class_end(s, n, 13, CharClass::Digit);
    if e != n {
        return None;
    }
    number_in(s, 13, n, 0xffff_ffff_ffff_ffff)
}

/// Reads a listing back: every line but the last must be an entry line, the
/// last the total line. Gives `None` where one is not, or where a number
/// does not fit its type.
pub fn parse_plain(lines: &Vec<String>) -> (r: Option<PlainListing>)
    ensures
        r is Some <==> (parse_listing(texts(lines@)) is Some && listing_fits(
            parse_listing(texts(lines@))->0,
        )),
        r is Some ==> parse_listing(texts(lines@)) == Some(listing_view(r->0)),
{
    let ghost t = texts(lines@);
    if lines.len() == 0 {
        return None;
    }
    let last = lines.len() - 1;
    let mut entries: Vec<ListedRepository> = Vec::new();
    let mut i: usize = 0;
    while i < last
        invariant
            t == texts(lines@),
            last == lines@.len() - 1,
            i <= last,
            entries@.len() == i,
            forall|j: int| 0 <= j < i ==> entry_fits(#[trigger] t[j]),
            forall|j: int|
                0 <= j < i ==> parse_entry(t[j]) == Some(
                    (#[trigger] entries@[j].star_count as nat, entries@[j].name@),
                ),
        decreases last - i,
    {
        match parse_entry_line(&lines[i]) {
            Some(e) => {
                entries.push(e);
            },
            None => {
                proof {
                    assert(t[i as int] == lines@[i as int]@);
                    assert(!entry_fits(t[i as int]));
                    if parse_listing(t) is Some {
                        let l = parse_listing(t)->0;
                        assert(l.0[i as int] == parse_entry(t[i as int])->0);
                    }
                }
                return None;
            },
        }
        i = i + 1;
    }
    match parse_total_line(&lines[last]) {
        Some(total) => {
            let out = PlainListing { entries, total_star_count: total };
            proof {
                assert(t.last() == lines@[last as int]@);
                assert forall|j: int| 0 <= j < t.len() - 1 implies parse_entry(t[j]) is Some by {
                    assert(entry_fits(t[j]));
                }
                let l = parse_listing(t)->0;
                assert(l.0 =~= listing_view(out).0);
            }
            Some(out)
        },
        None => {
            proof {
                assert(t.last() == lines@[last as int]@);
            }
            None
        },
    }
}

} // verus!
