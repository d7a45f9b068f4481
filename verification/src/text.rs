use vstd::prelude::*;

verus! {

/// The characters of `s`, in order.
pub fn chars_of(s: &str) -> (out: Vec<char>)
    ensures
        out@ == s@,
{
    let mut out: Vec<char> = Vec::new();
    for c in it: s.chars()
        invariant
            out@ == it.seq().take(it.index() as int),
    {
        out.push(c);
    }
    out
}

/// Builds a `String` from its characters (`FromIterator<char>` for `String`).
#[verifier::external_body]
pub(crate) fn string_from_chars(chars: Vec<char>) -> (s: String)
    ensures
        s@ == chars@,
{
    String::from_iter(chars)
}

/// Whether two strings hold the same characters.
pub fn str_equals(a: &str, b: &str) -> (eq: bool)
    ensures
        eq == (a@ == b@),
{
    a.to_owned() == b.to_owned()
}


/// The uppercase hexadecimal digit for `n` (below 16).
pub open spec fn hex_digit(n: int) -> char {
    if n < 10 { (n + 48) as char } else { (n + 55) as char }
}

/// The decimal digit for `n` (below 10).
pub open spec fn decimal_digit(n: int) -> char {
    (n + 48) as char
}

/// A byte as two uppercase hexadecimal digits.
pub open spec fn hex_byte(b: u8) -> Seq<char> {
    seq![hex_digit((b / 16) as int), hex_digit((b % 16) as int)]
}

/// The bytes in uppercase hexadecimal, separated by single spaces.
pub open spec fn hex_bytes(bytes: Seq<u8>) -> Seq<char>
    decreases bytes.len(),
{
    if bytes.len() == 0 {
        Seq::empty()
    } else if bytes.len() == 1 {
        hex_byte(bytes[0])
    } else {
        hex_bytes(bytes.drop_last()) + seq![' '] + hex_byte(bytes.last())
    }
}

/// `n` in decimal, without leading zeros.
pub open spec fn decimal(n: nat) -> Seq<char>
    decreases n,
{
    if n < 10 {
        seq![decimal_digit(n as int)]
    } else {
        decimal(n / 10) + seq![decimal_digit((n % 10) as int)]
    }
}

/// How many bytes `hex_str` shows.
pub const HEX_SHOWN_BYTES: usize = 48;

/// The text of `hex_str`: the first (at most 48) bytes in hexadecimal, then the total
/// byte count in brackets, preceded by "..." when bytes were left out.
pub open spec fn hex_text(data: Seq<u8>) -> Seq<char> {
    let shown = if data.len() > HEX_SHOWN_BYTES { HEX_SHOWN_BYTES as int } else { data.len() as int };
    hex_bytes(data.take(shown))
        + (if data.len() > HEX_SHOWN_BYTES { seq![' ', '.', '.', '.', '('] } else { seq![' ', '('] })
        + decimal(data.len())
        + seq![' ', 'b', 'y', 't', 'e', 's', ')']
}

fn hex_digit_char(n: u8) -> (c: char)
    requires
        n < 16,
    ensures
        c == hex_digit(n as int),
{
    if n < 10 { (n + 48) as char } else { (n + 55) as char }
}

/// Appends `n` in decimal.
fn push_decimal(out: &mut Vec<char>, n: usize)
    ensures
        final(out)@ == old(out)@ + decimal(n as nat),
    decreases n,
{
    if n >= 10 {
        push_decimal(out, n / 10);
    }
    let d = (n % 10) as u8;
    out.push((d + 48) as char);
}

/// Appends the characters of `tail`.
fn push_chars(out: &mut Vec<char>, tail: &[char])
    ensures
        final(out)@ == old(out)@ + tail@,
{
    let ghost start = out@;
    let mut i: usize = 0;
    while i < tail.len()
        invariant
            i <= tail@.len(),
            out@ == start + tail@.take(i as int),
        decreases tail@.len() - i,
    {
        out.push(tail[i]);
        i = i + 1;
        assert(out@ =~= start + tail@.take(i as int));
    }
    assert(tail@.take(i as int) =~= tail@);
}

/// A short hexadecimal dump of `data`, for diagnostics (see `hex_text`).
pub fn hex_str(data: &[u8]) -> (text: String)
    ensures
        text@ == hex_text(data@),
{
    let shown = if data.len() > HEX_SHOWN_BYTES { HEX_SHOWN_BYTES } else { data.len() };
    let mut out: Vec<char> = Vec::new();
    let mut i: usize = 0;
    while i < shown
        invariant
            shown <= data@.len(),
            i <= shown,
            out@ == hex_bytes(data@.take(i as int)),
        decreases shown - i,
    {
        let b = data[i];
        assert(data@.take(i + 1).drop_last() =~= data@.take(i as int));
        if i > 0 {
            out.push(' ');
        }
        assert(b / 16 < 16) by (nonlinear_arith);
        out.push(hex_digit_char(b / 16));
        out.push(hex_digit_char(b % 16));
        i = i + 1;
        assert(out@ =~= hex_bytes(data@.take(i as int)));
    }
    if data.len() > HEX_SHOWN_BYTES {
        push_chars(&mut out, &[' ', '.', '.', '.', '(']);
    } else {
        push_chars(&mut out, &[' ', '(']);
    }
    push_decimal(&mut out, data.len());
    push_chars(&mut out, &[' ', 'b', 'y', 't', 'e', 's', ')']);
    proof {
        assert(out@ =~= hex_text(data@));
    }
    string_from_chars(out)
}


/// A printable ASCII byte: a graphic character or the space.
pub open spec fn is_printable(b: u8) -> bool {
    0x20 <= b <= 0x7E
}

/// Shortest run of printable bytes that `scan_ascii` reports.
pub const MIN_ASCII_RUN: usize = 5;

/// One byte of the scan: a printable byte extends the open run; any other byte closes it,
/// and the closed run is reported when it holds at least `MIN_ASCII_RUN` characters.
pub open spec fn ascii_step(st: (Seq<Seq<char>>, Seq<char>), b: u8) -> (Seq<Seq<char>>, Seq<char>) {
    let (found, open) = st;
    if is_printable(b) {
        (found, open.push(b as char))
    } else if open.len() >= MIN_ASCII_RUN {
        (found.push(open), Seq::empty())
    } else {
        (found, Seq::empty())
    }
}

/// Scanning `data` front to back: the runs reported so far, and the printable run still
/// open at the end.
pub open spec fn ascii_scan(data: Seq<u8>) -> (Seq<Seq<char>>, Seq<char>)
    decreases data.len(),
{
    if data.len() == 0 {
        (Seq::empty(), Seq::empty())
    } else {
        ascii_step(ascii_scan(data.drop_last()), data.last())
    }
}

/// Scanning `data` front to back from the state `st`.
pub open spec fn ascii_scan_from(st: (Seq<Seq<char>>, Seq<char>), data: Seq<u8>) -> (Seq<Seq<char>>, Seq<char>)
    decreases data.len(),
{
    if data.len() == 0 {
        st
    } else {
        ascii_step(ascii_scan_from(st, data.drop_last()), data.last())
    }
}

/// The runs of at least `MIN_ASCII_RUN` printable ASCII bytes in `data`, in order.
pub open spec fn ascii_runs(data: Seq<u8>) -> Seq<Seq<char>> {
    let (found, open) = ascii_scan(data);
    if open.len() >= MIN_ASCII_RUN { found.push(open) } else { found }
}

pub open spec fn string_views(v: Seq<String>) -> Seq<Seq<char>> {
    v.map_values(|s: String| s@)
}

/// Every run of printable ASCII bytes of at least 5 characters in `data`, in order.
pub fn scan_ascii(data: &[u8]) -> (runs: Vec<String>)
    ensures
        string_views(runs@) == ascii_runs(data@),
{
    let mut results: Vec<String> = Vec::new();
    let mut cur: Vec<char> = Vec::new();
    let mut i: usize = 0;
    while i < data.len()
        invariant
            i <= data@.len(),
            (string_views(results@), cur@) == ascii_scan(data@.take(i as int)),
        decreases data@.len() - i,
    {
        let b = data[i];
        assert(data@.take(i + 1).drop_last() =~= data@.take(i as int));
        if b >= 0x20 && b <= 0x7E {
            cur.push(b as char);
        } else {
            if cur.len() >= MIN_ASCII_RUN {
                let ghost before = string_views(results@);
                let ghost run = cur@;
                results.push(string_from_chars(cur));
                assert(string_views(results@) =~= before.push(run));
            }
            cur = Vec::new();
        }
        i = i + 1;
    }
    assert(data@.take(i as int) =~= data@);
    if cur.len() >= MIN_ASCII_RUN {
        let ghost before = string_views(results@);
        let ghost run = cur@;
        results.push(string_from_chars(cur));
        assert(string_views(results@) =~= before.push(run));
    }
    results
}

/// Every reported run holds at least `MIN_ASCII_RUN` characters, all printable ASCII.
pub proof fn lemma_ascii_runs_printable(data: Seq<u8>)
    ensures
        forall|k: int| 0 <= k < ascii_runs(data).len() ==> {
            &&& #[trigger] ascii_runs(data)[k].len() >= MIN_ASCII_RUN
            &&& forall|j: int| 0 <= j < ascii_runs(data)[k].len() ==>
                0x20 <= (#[trigger] ascii_runs(data)[k][j]) as int <= 0x7E
        },
{
    lemma_ascii_scan_printable(data);
}

proof fn lemma_ascii_scan_printable(data: Seq<u8>)
    ensures
        forall|j: int| 0 <= j < ascii_scan(data).1.len() ==>
            0x20 <= (#[trigger] ascii_scan(data).1[j]) as int <= 0x7E,
        forall|k: int| 0 <= k < ascii_scan(data).0.len() ==> {
            &&& #[trigger] ascii_scan(data).0[k].len() >= MIN_ASCII_RUN
            &&& forall|j: int| 0 <= j < ascii_scan(data).0[k].len() ==>
                0x20 <= (#[trigger] ascii_scan(data).0[k][j]) as int <= 0x7E
        },
    decreases data.len(),
{
    if data.len() > 0 {
        lemma_ascii_scan_printable(data.drop_last());
        let (found, open) = ascii_scan(data.drop_last());
        let b = data.last();
        if is_printable(b) {
            assert((b as char) as int == b as int);
            let open2 = open.push(b as char);
            assert forall|j: int| 0 <= j < open2.len() implies 0x20 <= (#[trigger] open2[j]) as int <= 0x7E by {
                if j < open.len() {
                    assert(open2[j] == open[j]);
                }
            }
        } else if open.len() >= MIN_ASCII_RUN {
            let found2 = found.push(open);
            assert forall|k: int| 0 <= k < found2.len() implies {
                &&& #[trigger] found2[k].len() >= MIN_ASCII_RUN
                &&& forall|j: int| 0 <= j < found2[k].len() ==> 0x20 <= (#[trigger] found2[k][j]) as int <= 0x7E
            } by {
                if k < found.len() {
                    assert(found2[k] == found[k]);
                }
            }
        }
    }
}


/// Scanning `a + s` is scanning `s` from where scanning `a` ends.
proof fn lemma_ascii_scan_concat(a: Seq<u8>, s: Seq<u8>)
    ensures
        ascii_scan(a + s) == ascii_scan_from(ascii_scan(a), s),
    decreases s.len(),
{
    if s.len() == 0 {
        assert(a + s =~= a);
    } else {
        assert((a + s).drop_last() =~= a + s.drop_last());
        assert((a + s).last() == s.last());
        lemma_ascii_scan_concat(a, s.drop_last());
    }
}

/// Runs reported before a scan starts stay in front of what it reports.
proof fn lemma_ascii_scan_from_prefix(reported: Seq<Seq<char>>, found: Seq<Seq<char>>, open: Seq<char>, s: Seq<u8>)
    ensures
        ascii_scan_from((reported + found, open), s).0 == reported + ascii_scan_from((found, open), s).0,
        ascii_scan_from((reported + found, open), s).1 == ascii_scan_from((found, open), s).1,
    decreases s.len(),
{
    if s.len() > 0 {
        lemma_ascii_scan_from_prefix(reported, found, open, s.drop_last());
        let (f1, o1) = ascii_scan_from((found, open), s.drop_last());
        assert((reported + f1).push(o1) =~= reported + f1.push(o1));
    }
}

/// Scanning from the empty state is scanning from scratch.
proof fn lemma_ascii_scan_from_start(s: Seq<u8>)
    ensures
        ascii_scan_from((Seq::empty(), Seq::empty()), s) == ascii_scan(s),
    decreases s.len(),
{
    if s.len() > 0 {
        lemma_ascii_scan_from_start(s.drop_last());
    }
}

/// A byte that is not printable splits the input into parts that are scanned
/// independently: the runs of `a`, that byte, then `b` are the runs of `a` followed by the
/// runs of `b`.
pub proof fn lemma_ascii_runs_split(a: Seq<u8>, sep: u8, b: Seq<u8>)
    requires
        !is_printable(sep),
    ensures
        ascii_runs(a + seq![sep] + b) == ascii_runs(a) + ascii_runs(b),
{
    let a1 = a + seq![sep];
    lemma_ascii_scan_concat(a1, b);
    assert(a1.drop_last() =~= a);
    assert(ascii_scan(a1) == (ascii_runs(a), Seq::<char>::empty()));
    let empty_runs = Seq::<Seq<char>>::empty();
    assert(ascii_runs(a) + empty_runs =~= ascii_runs(a));
    lemma_ascii_scan_from_prefix(ascii_runs(a), empty_runs, Seq::empty(), b);
    lemma_ascii_scan_from_start(b);
    let (fb, ob) = ascii_scan(b);
    if ob.len() >= MIN_ASCII_RUN {
        assert((ascii_runs(a) + fb).push(ob) =~= ascii_runs(a) + fb.push(ob));
    }
}

/// The number that a sequence of decimal digit characters spells.
pub open spec fn digits_value(s: Seq<char>) -> int
    decreases s.len(),
{
    if s.len() == 0 {
        0
    } else {
        digits_value(s.drop_last()) * 10 + (s.last() as int - '0' as int)
    }
}

/// `decimal(n)` spells `n` with the digits '0'..='9', and starts with '0' only for zero.
pub proof fn lemma_decimal_spells(n: nat)
    ensures
        digits_value(decimal(n)) == n,
        forall|j: int| 0 <= j < decimal(n).len() ==> '0' <= #[trigger] decimal(n)[j] <= '9',
        decimal(n)[0] == '0' ==> n == 0,
    decreases n,
{
    if n >= 10 {
        lemma_decimal_spells(n / 10);
        let d = decimal(n / 10);
        let t = decimal(n);
        assert(t.drop_last() =~= d);
        assert(t.last() == decimal_digit((n % 10) as int));
        assert((((n % 10) as int + 48) as char) as int == (n % 10) as int + 48);
        vstd::arithmetic::div_mod::lemma_fundamental_div_mod(n as int, 10);
        assert(digits_value(t) == digits_value(d) * 10 + (t.last() as int - '0' as int));
        assert(digits_value(t) == (n / 10) as int * 10 + (n % 10) as int);
        assert forall|j: int| 0 <= j < t.len() implies '0' <= #[trigger] t[j] <= '9' by {
            if j < d.len() {
                assert(t[j] == d[j]);
            }
        }
        assert(t[0] == d[0]);
    } else {
        let t = decimal(n);
        assert(t.drop_last() =~= Seq::<char>::empty());
        assert(((n as int + 48) as char) as int == n as int + 48);
        assert(digits_value(t) == digits_value(t.drop_last()) * 10 + (t.last() as int - '0' as int));
        assert(digits_value(Seq::<char>::empty()) == 0);
    }
}

/// The hexadecimal digits are '0'..='9' for 0 to 9 and 'A'..='F' for 10 to 15.
pub proof fn lemma_hex_digits(n: int)
    requires
        0 <= n < 16,
    ensures
        n < 10 ==> hex_digit(n) as int - '0' as int == n,
        n >= 10 ==> hex_digit(n) as int - 'A' as int == n - 10,
{
}

/// A stretch of printable bytes is reported as one run, its bytes as characters, when it
/// holds at least five of them, and not at all when it holds fewer.
pub proof fn lemma_printable_stretch(s: Seq<u8>)
    requires
        forall|j: int| 0 <= j < s.len() ==> 0x20 <= #[trigger] s[j] <= 0x7E,
    ensures
        s.len() >= 5 ==> ascii_runs(s) == seq![s.map_values(|b: u8| b as char)],
        s.len() < 5 ==> ascii_runs(s).len() == 0,
{
    lemma_printable_scan(s);
}

proof fn lemma_printable_scan(s: Seq<u8>)
    requires
        forall|j: int| 0 <= j < s.len() ==> 0x20 <= #[trigger] s[j] <= 0x7E,
    ensures
        ascii_scan(s) == (Seq::<Seq<char>>::empty(), s.map_values(|b: u8| b as char)),
    decreases s.len(),
{
    if s.len() > 0 {
        lemma_printable_scan(s.drop_last());
        assert(s.drop_last().map_values(|b: u8| b as char).push(s.last() as char)
            =~= s.map_values(|b: u8| b as char));
    }
}

} // verus!
