use vstd::prelude::*;

verus! {

/// `char::is_whitespace`: the characters with the Unicode `White_Space` property.
pub open spec fn is_whitespace(c: char) -> bool {
    ||| c == ' ' || c == '\t' || c == '\n' || c == '\u{0B}' || c == '\u{0C}' || c == '\r'
    ||| c == '\u{85}' || c == '\u{A0}' || c == '\u{1680}'
    ||| ('\u{2000}' <= c && c <= '\u{200A}')
    ||| c == '\u{2028}' || c == '\u{2029}' || c == '\u{202F}' || c == '\u{205F}' || c == '\u{3000}'
}

/// How many whitespace characters `s` starts with.
pub open spec fn leading_whitespace(s: Seq<char>) -> nat
    decreases s.len(),
{
    if s.len() > 0 && is_whitespace(s[0]) {
        1 + leading_whitespace(s.drop_first())
    } else {
        0
    }
}

/// The position of the first `c` in `s`, if there is one.
#[verifier::opaque]
pub open spec fn first_index_of(s: Seq<char>, c: char) -> Option<int> {
    if exists|i: int| 0 <= i < s.len() && s[i] == c {
        Some(choose|i: int| 0 <= i < s.len() && s[i] == c && forall|j: int| 0 <= j < i ==> s[j] != c)
    } else {
        None
    }
}

pub open spec fn starts_with(s: Seq<char>, prefix: Seq<char>) -> bool {
    prefix.len() <= s.len() && s.take(prefix.len() as int) == prefix
}

/// A line of DRM usage statistics (`/proc/<pid>/fdinfo/<fd>`, see the kernel's
/// drm-usage-stats documentation) that this monitor reads.
pub enum DrmStat {
    /// `drm-engine-<name>: <value> <unit>`: time an engine was busy.
    Engine { name: String, value: String, unit: String },
    /// `drm-total-<name>: <value> <unit>`: memory of a region.
    Total { name: String, value: String, unit: String },
    /// Any other line.
    Other,
}

/// What a key says: 1 and the engine's name for `drm-engine-<name>` (but for
/// engine capacities), 2 and the region's name for `drm-total-<name>`, 0 for
/// any other key.
pub open spec fn drm_key_kind(key: Seq<char>) -> (u8, Seq<char>) {
    if !starts_with(key, "drm-"@) {
        (0u8, Seq::<char>::empty())
    } else if starts_with(key.skip(4), "total-"@) {
        (2u8, key.skip(4).skip(6))
    } else if starts_with(key.skip(4), "engine-"@) && !starts_with(
        key.skip(4).skip(7),
        "capacity-"@,
    ) {
        (1u8, key.skip(4).skip(7))
    } else {
        (0u8, Seq::<char>::empty())
    }
}

/// The value of a line: what follows its first colon, without leading whitespace.
pub open spec fn value_part(line: Seq<char>, colon: int) -> Seq<char> {
    let rest = line.skip(colon + 1);
    rest.skip(leading_whitespace(rest) as int)
}

/// The meaning of a line: 1 for an engine, 2 for a total, 0 otherwise, with the
/// name, the value and the unit. The key is what precedes the first colon, the
/// value what follows it without leading whitespace; value and unit are split
/// at the first space. Lines whose value holds no space are of no interest.
#[verifier::opaque]
pub open spec fn drm_stat_of(line: Seq<char>) -> (u8, Seq<char>, Seq<char>, Seq<char>) {
    let none = (0u8, Seq::<char>::empty(), Seq::<char>::empty(), Seq::<char>::empty());
    match first_index_of(line, ':') {
        None => none,
        Some(i) => {
            let kind = drm_key_kind(line.take(i));
            let value = value_part(line, i);
            match first_index_of(value, ' ') {
                Some(j) => if kind.0 == 0 {
                    none
                } else {
                    (kind.0, kind.1, value.take(j), value.skip(j + 1))
                },
                None => none,
            }
        },
    }
}

proof fn lemma_drm_stat_cases(line: Seq<char>)
    ensures
        first_index_of(line, ':') is None ==> drm_stat_of(line).0 == 0,
        first_index_of(line, ':') matches Some(i) ==> {
            let kind = drm_key_kind(line.take(i));
            let value = value_part(line, i);
            &&& kind.0 == 0 ==> drm_stat_of(line).0 == 0
            &&& first_index_of(value, ' ') is None ==> drm_stat_of(line).0 == 0
            &&& (kind.0 != 0 && first_index_of(value, ' ') is Some) ==> drm_stat_of(line) == (
                kind.0,
                kind.1,
                value.take(first_index_of(value, ' ').unwrap()),
                value.skip(first_index_of(value, ' ').unwrap() + 1),
            )
        },
{
    reveal(drm_stat_of);
}

/// Whether `c` is an ASCII digit.
pub open spec fn is_digit(c: char) -> bool {
    '0' <= c && c <= '9'
}

/// The number written by the decimal digits `s`.
pub open spec fn digits_value(s: Seq<char>) -> int
    decreases s.len(),
{
    if s.len() == 0 {
        0
    } else {
        digits_value(s.drop_last()) * 10 + (s.last() as int - '0' as int)
    }
}

/// What `<u64 as FromStr>::from_str` gives: an optional `+` followed by at least
/// one decimal digit and nothing else, of a value that fits in `u64`.
pub open spec fn parsed_u64(s: Seq<char>) -> Option<u64> {
    if s.len() > 0 && s[0] == '+' {
        parsed_u64_digits(s.skip(1))
    } else {
        parsed_u64_digits(s)
    }
}

fn chars_of(s: &str) -> (v: Vec<char>)
    ensures
        v@ == s@,
{
    broadcast use vstd::string::group_string_axioms;

    let mut v: Vec<char> = Vec::new();
    for c in it: s.chars()
        invariant
            it.seq() == s@,
            v@ == s@.take(it.index() as int),
    {
        proof {
            assert(s@.take(it.index() as int + 1) == s@.take(it.index() as int).push(c));
        }
        v.push(c);
    }
    proof {
        assert(s@.take(s@.len() as int) == s@);
    }
    v
}

proof fn lemma_first_index_found(s: Seq<char>, c: char, k: int)
    requires
        0 <= k < s.len(),
        s[k] == c,
        forall|j: int| 0 <= j < k ==> s[j] != c,
    ensures
        first_index_of(s, c) == Some(k),
{
    reveal(first_index_of);
    let w = choose|w: int| 0 <= w < s.len() && s[w] == c && forall|j: int| 0 <= j < w ==> s[j] != c;
    if w < k {
    } else if w > k {
        assert(s[k] != c);
    }
}

proof fn lemma_first_index_absent(s: Seq<char>, c: char)
    requires
        forall|j: int| 0 <= j < s.len() ==> s[j] != c,
    ensures
        first_index_of(s, c) == None::<int>,
{
    reveal(first_index_of);
}

fn find_char(v: &Vec<char>, from: usize, c: char) -> (found: Option<usize>)
    requires
        from <= v@.len(),
    ensures
        match found {
            Some(i) => from <= i < v@.len() && first_index_of(v@.skip(from as int), c) == Some(
                i - from,
            ),
            None => first_index_of(v@.skip(from as int), c) == None::<int>,
        },
{
    let ghost s = v@.skip(from as int);
    let mut i: usize = from;
    while i < v.len()
        invariant
            from <= i <= v@.len(),
            s == v@.skip(from as int),
            forall|j: int| 0 <= j < i - from ==> s[j] != c,
        decreases v@.len() - i,
    {
        if v[i] == c {
            proof {
                lemma_first_index_found(s, c, i - from);
            }
            return Some(i);
        }
        i = i + 1;
    }
    proof {
        lemma_first_index_absent(s, c);
    }
    None
}

fn has_prefix_at(v: &Vec<char>, from: usize, to: usize, prefix: &Vec<char>) -> (b: bool)
    requires
        from <= to <= v@.len(),
    ensures
        b == starts_with(v@.subrange(from as int, to as int), prefix@),
{
    let ghost s = v@.subrange(from as int, to as int);
    if prefix.len() > to - from {
        return false;
    }
    let mut i: usize = 0;
    while i < prefix.len()
        invariant
            prefix@.len() <= to - from,
            from <= to <= v@.len(),
            i <= prefix@.len(),
            s == v@.subrange(from as int, to as int),
            forall|j: int| 0 <= j < i ==> s[j] == prefix@[j],
        decreases prefix@.len() - i,
    {
        if v[from + i] != prefix[i] {
            proof {
                assert(s.take(prefix@.len() as int)[i as int] != prefix@[i as int]);
            }
            return false;
        }
        i = i + 1;
    }
    proof {
        assert(s.take(prefix@.len() as int) =~= prefix@);
    }
    true
}

fn count_whitespace(v: &Vec<char>, from: usize) -> (n: usize)
    requires
        from <= v@.len(),
    ensures
        n == leading_whitespace(v@.skip(from as int)),
        from + n <= v@.len(),
{
    let mut i: usize = from;
    while i < v.len() && is_white(v[i])
        invariant
            from <= i <= v@.len(),
            leading_whitespace(v@.skip(from as int)) == (i - from) + leading_whitespace(
                v@.skip(i as int),
            ),
        decreases v@.len() - i,
    {
        proof {
            assert(v@.skip(i as int).drop_first() == v@.skip(i as int + 1));
        }
        i = i + 1;
    }
    i - from
}

fn is_white(c: char) -> (b: bool)
    ensures
        b == is_whitespace(c),
{
    c == ' ' || c == '\t' || c == '\n' || c == '\u{0B}' || c == '\u{0C}' || c == '\r' || c
        == '\u{85}' || c == '\u{A0}' || c == '\u{1680}' || ('\u{2000}' <= c && c <= '\u{200A}')
        || c == '\u{2028}' || c == '\u{2029}' || c == '\u{202F}' || c == '\u{205F}' || c
        == '\u{3000}'
}

fn classify_key(v: &Vec<char>, colon: usize) -> (kind: (u8, usize))
    requires
        colon <= v@.len(),
    ensures
        kind.0 == drm_key_kind(v@.take(colon as int)).0,
        kind.0 != 0 ==> kind.1 <= colon && drm_key_kind(v@.take(colon as int)).1 == v@.subrange(
            kind.1 as int,
            colon as int,
        ),
{
    let ghost key = v@.take(colon as int);
    proof {
        assert(key == v@.subrange(0, colon as int));
        reveal_strlit("drm-");
        reveal_strlit("total-");
        reveal_strlit("engine-");
    }
    let drm = chars_of("drm-");
    if !has_prefix_at(&v, 0, colon, &drm) {
        return (0, 0);
    }
    proof {
        assert(key.skip(4) == v@.subrange(4, colon as int));
    }
    let total = chars_of("total-");
    if has_prefix_at(&v, 4, colon, &total) {
        proof {
            assert(key.skip(4).skip(6) == v@.subrange(10, colon as int));
        }
        return (2, 10);
    }
    let engine = chars_of("engine-");
    if has_prefix_at(&v, 4, colon, &engine) {
        proof {
            assert(key.skip(4).skip(7) == v@.subrange(11, colon as int));
        }
        let capacity = chars_of("capacity-");
        if has_prefix_at(&v, 11, colon, &capacity) {
            return (0, 0);
        }
        return (1, 11);
    }
    (0, 0)
}

/// Reads one line of a DRM file descriptor's usage statistics.
pub fn parse_drm_line(line: &str) -> (stat: DrmStat)
    ensures
        match stat {
            DrmStat::Engine { name, value, unit } => drm_stat_of(line@) == (
                1u8,
                name@,
                value@,
                unit@,
            ),
            DrmStat::Total { name, value, unit } => drm_stat_of(line@) == (
                2u8,
                name@,
                value@,
                unit@,
            ),
            DrmStat::Other => drm_stat_of(line@).0 == 0,
        },
{
    let v = chars_of(line);
    let n = v.len();
    proof {
        assert(v@.skip(0) == v@);
        lemma_drm_stat_cases(line@);
    }
    let colon = match find_char(&v, 0, ':') {
        Some(i) => i,
        None => {
            return DrmStat::Other;
        },
    };
    let kind = classify_key(&v, colon);
    if kind.0 == 0 {
        return DrmStat::Other;
    }
    let ws = count_whitespace(&v, colon + 1);
    let start = colon + 1 + ws;
    proof {
        assert(value_part(line@, colon as int) == v@.skip(start as int));
    }
    let space = match find_char(&v, start, ' ') {
        Some(j) => j,
        None => {
            return DrmStat::Other;
        },
    };
    let name = String::from_str(line.substring_char(kind.1, colon));
    let value_text = String::from_str(line.substring_char(start, space));
    let unit = String::from_str(line.substring_char(space + 1, n));
    proof {
        let value = value_part(line@, colon as int);
        let j = space - start;
        assert(value_text@ == value.take(j as int));
        assert(unit@ == value.skip(j as int + 1));
    }
    if kind.0 == 1 {
        DrmStat::Engine { name, value: value_text, unit }
    } else {
        DrmStat::Total { name, value: value_text, unit }
    }
}

/// Reads a decimal number as `str::parse::<u64>` does.
pub fn parse_u64(s: &str) -> (n: Option<u64>)
    ensures
        n == parsed_u64(s@),
{
    let v = chars_of(s);
    let start: usize = if v.len() > 0 && v[0] == '+' {
        1
    } else {
        0
    };
    let ghost d = v@.skip(start as int);
    proof {
        assert(start == 0 ==> d == v@);
        assert(parsed_u64(s@) == parsed_u64_digits(d));
    }
    if start >= v.len() {
        return None;
    }
    let mut acc: u64 = 0;
    let mut i: usize = start;
    while i < v.len()
        invariant
            start <= i <= v@.len(),
            start < v@.len(),
            d == v@.skip(start as int),
            parsed_u64(s@) == parsed_u64_digits(d),
            forall|j: int| 0 <= j < i - start ==> is_digit(#[trigger] d[j]),
            acc == digits_value(d.take(i - start)),
        decreases v@.len() - i,
    {
        let c = v[i];
        proof {
            assert(d.take(i - start + 1).drop_last() == d.take(i - start));
            assert(d.take(i - start + 1).last() == c);
        }
        if c < '0' || c > '9' {
            proof {
                assert(d[i - start] == c);
                assert(!is_digit(d[i - start]));
            }
            return None;
        }
        let digit = (c as u32 - '0' as u32) as u64;
        match acc.checked_mul(10) {
            Some(m) => match m.checked_add(digit) {
                Some(a) => {
                    acc = a;
                },
                None => {
                    proof {
                        lemma_overflow_rejects(d, (i - start + 1) as int);
                    }
                    return None;
                },
            },
            None => {
                proof {
                    lemma_overflow_rejects(d, (i - start + 1) as int);
                }
                return None;
            },
        }
        i = i + 1;
    }
    proof {
        assert(d.take(d.len() as int) == d);
    }
    Some(acc)
}

/// Longer runs of digits are worth at least as much as their prefixes.
proof fn lemma_digits_value_grows(d: Seq<char>, k: int)
    requires
        0 <= k <= d.len(),
        forall|j: int| 0 <= j < d.len() ==> is_digit(#[trigger] d[j]),
    ensures
        digits_value(d.take(k)) <= digits_value(d),
    decreases d.len() - k,
{
    if k < d.len() {
        lemma_digits_value_grows(d, k + 1);
        assert(d.take(k + 1).drop_last() == d.take(k));
        assert(is_digit(d[k]));
        assert(d.take(k + 1).last() == d[k]);
        lemma_digits_nonnegative(d.take(k));
    } else {
        assert(d.take(k) == d);
    }
}

/// A run whose prefix of `k` digits is already too large for `u64` is rejected.
proof fn lemma_overflow_rejects(d: Seq<char>, k: int)
    requires
        0 < k <= d.len(),
        digits_value(d.take(k)) > u64::MAX,
    ensures
        parsed_u64_digits(d) == None::<u64>,
{
    if forall|j: int| 0 <= j < d.len() ==> is_digit(#[trigger] d[j]) {
        lemma_digits_value_grows(d, k);
    }
}

/// What `parsed_u64` gives once the sign is removed.
pub open spec fn parsed_u64_digits(d: Seq<char>) -> Option<u64> {
    if d.len() > 0 && (forall|i: int| 0 <= i < d.len() ==> is_digit(#[trigger] d[i]))
        && digits_value(d) <= u64::MAX {
        Some(digits_value(d) as u64)
    } else {
        None
    }
}

proof fn lemma_digits_nonnegative(d: Seq<char>)
    requires
        forall|j: int| 0 <= j < d.len() ==> is_digit(#[trigger] d[j]),
    ensures
        digits_value(d) >= 0,
    decreases d.len(),
{
    if d.len() > 0 {
        lemma_digits_nonnegative(d.drop_last());
        assert(is_digit(d[d.len() - 1]));
    }
}

/// A `drm-engine-<name>` key names an engine called `<name>` for every name that
/// does not start with `capacity-`; only that prefix marks an engine capacity. A
/// `drm-total-<name>` key names the memory region `<name>`.
pub proof fn lemma_key_kinds(name: Seq<char>)
    ensures
        !(name.len() >= 9 && name.take(9) == "capacity-"@) ==> drm_key_kind("drm-engine-"@ + name)
            == (1u8, name),
        (name.len() >= 9 && name.take(9) == "capacity-"@) ==> drm_key_kind(
            "drm-engine-"@ + name,
        ).0 == 0,
        drm_key_kind("drm-total-"@ + name) == (2u8, name),
{
    reveal_strlit("drm-engine-");
    reveal_strlit("drm-total-");
    reveal_strlit("drm-");
    reveal_strlit("total-");
    reveal_strlit("engine-");
    reveal_strlit("capacity-");
    let e = "drm-engine-"@ + name;
    assert(e.take(4) =~= "drm-"@);
    assert(e.skip(4).take(6) != "total-"@) by {
        assert(e.skip(4).take(6)[0] == 'e');
    }
    assert(e.skip(4).take(7) =~= "engine-"@);
    assert(e.skip(4).skip(7) =~= name);
    let t = "drm-total-"@ + name;
    assert(t.take(4) =~= "drm-"@);
    assert(t.skip(4).take(6) =~= "total-"@);
    assert(t.skip(4).skip(6) =~= name);
}

/// A key that does not start with `drm-` names nothing.
pub proof fn lemma_other_keys(key: Seq<char>)
    ensures
        !(key.len() >= 4 && key.take(4) == "drm-"@) ==> drm_key_kind(key).0 == 0,
{
    reveal_strlit("drm-");
}

proof fn lemma_leading_whitespace_of(ws: Seq<char>, rest: Seq<char>)
    requires
        forall|i: int| 0 <= i < ws.len() ==> is_whitespace(#[trigger] ws[i]),
        rest.len() > 0,
        !is_whitespace(rest[0]),
    ensures
        leading_whitespace(ws + rest) == ws.len(),
    decreases ws.len(),
{
    if ws.len() == 0 {
        assert(ws + rest =~= rest);
    } else {
        lemma_leading_whitespace_of(ws.drop_first(), rest);
        assert((ws + rest).drop_first() =~= ws.drop_first() + rest);
        assert((ws + rest)[0] == ws[0]);
    }
}

/// A line written as `<key>:<whitespace><value> <unit>` is read back as the kind
/// and name its key gives, with exactly that value and unit, when the key holds
/// no colon and the value is a non-empty word (no space, not starting with
/// whitespace); a key of no interest gives nothing.
pub proof fn lemma_parse_written_line(
    key: Seq<char>,
    ws: Seq<char>,
    value: Seq<char>,
    unit: Seq<char>,
)
    requires
        forall|i: int| 0 <= i < key.len() ==> #[trigger] key[i] != ':',
        forall|i: int| 0 <= i < ws.len() ==> is_whitespace(#[trigger] ws[i]),
        value.len() > 0,
        !is_whitespace(value[0]),
        forall|i: int| 0 <= i < value.len() ==> #[trigger] value[i] != ' ',
    ensures
        drm_key_kind(key).0 != 0 ==> drm_stat_of(key + seq![':'] + ws + value + seq![' '] + unit) == (
            drm_key_kind(key).0,
            drm_key_kind(key).1,
            value,
            unit,
        ),
        drm_key_kind(key).0 == 0 ==> drm_stat_of(key + seq![':'] + ws + value + seq![' '] + unit).0
            == 0,
{
    let tail = value + seq![' '] + unit;
    let line = key + seq![':'] + ws + value + seq![' '] + unit;
    assert(line =~= key + seq![':'] + (ws + tail));
    let k = key.len() as int;
    assert(line[k] == ':');
    assert forall|j: int| 0 <= j < k implies line[j] != ':' by {
        assert(line[j] == key[j]);
    }
    lemma_first_index_found(line, ':', k);
    assert(line.take(k) =~= key);
    assert(line.skip(k + 1) =~= ws + tail);
    assert(tail[0] == value[0]);
    lemma_leading_whitespace_of(ws, tail);
    assert((ws + tail).skip(ws.len() as int) =~= tail);
    assert(value_part(line, k) =~= tail);
    let n = value.len() as int;
    assert(tail[n] == ' ');
    assert forall|j: int| 0 <= j < n implies tail[j] != ' ' by {
        assert(tail[j] == value[j]);
    }
    lemma_first_index_found(tail, ' ', n);
    assert(tail.take(n) =~= value);
    assert(tail.skip(n + 1) =~= unit);
    lemma_drm_stat_cases(line);
}

} // verus!
