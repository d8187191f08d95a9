use vstd::prelude::*;

verus! {

// ---------------------------------------------------------------------------
// Specifications over character sequences
// ---------------------------------------------------------------------------

/// `p` is a prefix of `s`.
pub open spec fn has_prefix(s: Seq<char>, p: Seq<char>) -> bool {
    p.len() <= s.len() && s.take(p.len() as int) == p
}

/// Unicode `White_Space` property, the set that `char::is_whitespace` tests.
pub open spec fn is_ws(c: char) -> bool {
    let u = c as u32;
    ||| 0x9 <= u <= 0xd
    ||| u == 0x20
    ||| u == 0x85
    ||| u == 0xa0
    ||| u == 0x1680
    ||| 0x2000 <= u <= 0x200a
    ||| u == 0x2028
    ||| u == 0x2029
    ||| u == 0x202f
    ||| u == 0x205f
    ||| u == 0x3000
}

/// `s` without its leading whitespace.
pub open spec fn trim_start_spec(s: Seq<char>) -> Seq<char>
    decreases s.len(),
{
    if s.len() > 0 && is_ws(s[0]) {
        trim_start_spec(s.drop_first())
    } else {
        s
    }
}

/// `s` without its trailing whitespace.
pub open spec fn trim_end_spec(s: Seq<char>) -> Seq<char>
    decreases s.len(),
{
    if s.len() > 0 && is_ws(s.last()) {
        trim_end_spec(s.drop_last())
    } else {
        s
    }
}

/// `s` without leading and trailing whitespace (`str::trim`).
pub open spec fn trim_spec(s: Seq<char>) -> Seq<char> {
    trim_end_spec(trim_start_spec(s))
}

/// `s` with every non-overlapping occurrence of `pat`, scanned from the left,
/// removed (`str::replace(pat, "")`); an empty pattern removes nothing.
pub open spec fn remove_all_spec(s: Seq<char>, pat: Seq<char>) -> Seq<char>
    decreases s.len(),
{
    if pat.len() == 0 || s.len() == 0 {
        s
    } else if has_prefix(s, pat) {
        remove_all_spec(s.skip(pat.len() as int), pat)
    } else {
        seq![s[0]] + remove_all_spec(s.drop_first(), pat)
    }
}

/// The pieces of `s` between occurrences of `sep` (`str::split` on a char):
/// always at least one piece, empty pieces kept.
pub open spec fn split_spec(s: Seq<char>, sep: char) -> Seq<Seq<char>>
    decreases s.len(),
{
    if s.len() == 0 {
        seq![Seq::<char>::empty()]
    } else {
        let rest = split_spec(s.drop_first(), sep);
        if s[0] == sep {
            seq![Seq::<char>::empty()] + rest
        } else {
            rest.update(0, seq![s[0]] + rest[0])
        }
    }
}

/// The decimal digit character of `d` (`0 <= d < 10`).
pub open spec fn digit_char(d: nat) -> char {
    ((d + 48) as u8) as char
}

/// Decimal representation of a natural number, without leading zeros.
pub open spec fn decimal_spec(n: nat) -> Seq<char>
    decreases n,
{
    if n < 10 {
        seq![digit_char(n)]
    } else {
        decimal_spec(n / 10).push(digit_char(n % 10))
    }
}

/// Decimal representation of an integer, with a leading `-` when negative.
pub open spec fn signed_decimal_spec(n: int) -> Seq<char> {
    if n < 0 {
        seq!['-'] + decimal_spec((-n) as nat)
    } else {
        decimal_spec(n as nat)
    }
}

/// `s` right-aligned in a field of `width` characters, padded with spaces.
pub open spec fn pad_left_spec(s: Seq<char>, width: nat) -> Seq<char> {
    if s.len() >= width {
        s
    } else {
        Seq::new((width - s.len()) as nat, |i: int| ' ') + s
    }
}

/// `c` is an ASCII digit.
pub open spec fn is_digit(c: char) -> bool {
    '0' <= c <= '9'
}

/// The value of a run of ASCII digits.
pub open spec fn digits_value(s: Seq<char>) -> nat
    decreases s.len(),
{
    if s.len() == 0 {
        0
    } else {
        digits_value(s.drop_last()) * 10 + ((s.last() as u32) - 48) as nat
    }
}

/// `s` without a leading `+` or `-` sign.
pub open spec fn unsigned_part(s: Seq<char>) -> Seq<char> {
    if s.len() > 0 && (s[0] == '-' || s[0] == '+') {
        s.drop_first()
    } else {
        s
    }
}

/// Every character of `s` is an ASCII digit.
pub open spec fn all_digits(s: Seq<char>) -> bool {
    forall|i: int| 0 <= i < s.len() ==> is_digit(#[trigger] s[i])
}

/// What `str::parse::<i64>` returns: an optional `+` or `-`, then at least one
/// ASCII digit and nothing else, with a value that fits in `i64`.
pub open spec fn parse_i64_spec(s: Seq<char>) -> Option<i64> {
    let ds = unsigned_part(s);
    if ds.len() == 0 || !all_digits(ds) {
        None
    } else {
        let v: int = if s[0] == '-' {
            -(digits_value(ds) as int)
        } else {
            digits_value(ds) as int
        };
        if i64::MIN <= v <= i64::MAX {
            Some(v as i64)
        } else {
            None
        }
    }
}

// ---------------------------------------------------------------------------
// Executable string operations
// ---------------------------------------------------------------------------

/// Appends one character to a string (`String::push`).
#[verifier::external_body]
pub fn push_char(s: &mut String, c: char)
    ensures
        final(s)@ == old(s)@.push(c),
{
    s.push(c);
}

/// The characters of a string slice, in order.
pub fn chars_of(s: &str) -> (r: Vec<char>)
    ensures
        r@ == s@,
{
    let mut r: Vec<char> = Vec::new();
    for c in it: s.chars()
        invariant
            r@ == it.seq().take(it.index() as int),
            it.seq() == s@,
    {
        r.push(c);
    }
    r
}

/// A string made of the characters `cs[from..to]`.
pub fn string_of_range(cs: &[char], from: usize, to: usize) -> (r: String)
    requires
        from <= to <= cs@.len(),
    ensures
        r@ == cs@.subrange(from as int, to as int),
{
    let mut r = String::new();
    let mut i: usize = from;
    while i < to
        invariant
            from <= i <= to <= cs@.len(),
            r@ == cs@.subrange(from as int, i as int),
        decreases to - i,
    {
        push_char(&mut r, cs[i]);
        assert(cs@.subrange(from as int, i as int).push(cs@[i as int]) =~= cs@.subrange(
            from as int,
            i + 1,
        ));
        i = i + 1;
    }
    r
}

/// An owned copy of a string slice.
pub fn owned(s: &str) -> (r: String)
    ensures
        r@ == s@,
{
    s.to_owned()
}

/// The concatenation of two string slices.
pub fn concat2(a: &str, b: &str) -> (r: String)
    ensures
        r@ == a@ + b@,
{
    let mut r = a.to_owned();
    r.append(b);
    r
}

/// Character-wise equality of two string slices.
pub fn str_eq(a: &str, b: &str) -> (r: bool)
    ensures
        r == (a@ == b@),
{
    let ac = chars_of(a);
    let bc = chars_of(b);
    if ac.len() != bc.len() {
        return false;
    }
    let mut i: usize = 0;
    while i < ac.len()
        invariant
            ac@ == a@,
            bc@ == b@,
            ac@.len() == bc@.len(),
            i <= ac@.len(),
            forall|j: int| 0 <= j < i ==> ac@[j] == bc@[j],
        decreases ac@.len() - i,
    {
        if ac[i] != bc[i] {
            return false;
        }
        i = i + 1;
    }
    assert(ac@ =~= bc@);
    true
}

/// Whether `cs[at..]` begins with `p`.
pub fn chars_have_prefix_at(cs: &[char], at: usize, p: &[char]) -> (r: bool)
    requires
        at <= cs@.len(),
    ensures
        r == has_prefix(cs@.skip(at as int), p@),
{
    let n = cs.len();
    if p.len() > n - at {
        return false;
    }
    let mut i: usize = 0;
    while i < p.len()
        invariant
            n == cs@.len(),
            at + p@.len() <= n,
            i <= p@.len(),
            forall|j: int| 0 <= j < i ==> cs@[at + j] == p@[j],
        decreases p@.len() - i,
    {
        assert(at + i < cs@.len());
        if cs[at + i] != p[i] {
            assert(cs@.skip(at as int).take(p@.len() as int)[i as int] != p@[i as int]);
            return false;
        }
        i = i + 1;
    }
    assert(cs@.skip(at as int).take(p@.len() as int) =~= p@);
    true
}

/// Whether `s` begins with `p` (`str::starts_with`).
pub fn starts_with(s: &str, p: &str) -> (r: bool)
    ensures
        r == has_prefix(s@, p@),
{
    let sc = chars_of(s);
    let pc = chars_of(p);
    assert(sc@.skip(0) =~= sc@);
    chars_have_prefix_at(sc.as_slice(), 0, pc.as_slice())
}

/// Whether `c` has the Unicode `White_Space` property (`char::is_whitespace`).
pub fn is_whitespace(c: char) -> (r: bool)
    ensures
        r == is_ws(c),
{
    let u = c as u32;
    (0x9 <= u && u <= 0xd) || u == 0x20 || u == 0x85 || u == 0xa0 || u == 0x1680 || (0x2000 <= u
        && u <= 0x200a) || u == 0x2028 || u == 0x2029 || u == 0x202f || u == 0x205f || u == 0x3000
}

proof fn lemma_trim_start_skip(s: Seq<char>, i: int)
    requires
        0 <= i <= s.len(),
        forall|j: int| 0 <= j < i ==> is_ws(#[trigger] s[j]),
    ensures
        trim_start_spec(s) == trim_start_spec(s.skip(i)),
    decreases i,
{
    if i > 0 {
        assert(s.drop_first().skip(i - 1) =~= s.skip(i));
        lemma_trim_start_skip(s.drop_first(), i - 1);
    } else {
        assert(s.skip(0) =~= s);
    }
}

proof fn lemma_trim_end_take(s: Seq<char>, k: int)
    requires
        0 <= k <= s.len(),
        forall|j: int| k <= j < s.len() ==> is_ws(#[trigger] s[j]),
    ensures
        trim_end_spec(s) == trim_end_spec(s.take(k)),
    decreases s.len() - k,
{
    if k < s.len() {
        assert(s.drop_last().take(k) =~= s.take(k));
        lemma_trim_end_take(s.drop_last(), k);
    } else {
        assert(s.take(k) =~= s);
    }
}

/// `s` without leading and trailing whitespace (`str::trim`).
pub fn trim(s: &str) -> (r: String)
    ensures
        r@ == trim_spec(s@),
{
    let cs = chars_of(s);
    let mut i: usize = 0;
    while i < cs.len() && is_whitespace(cs[i])
        invariant
            cs@ == s@,
            i <= cs@.len(),
            forall|j: int| 0 <= j < i ==> is_ws(#[trigger] cs@[j]),
        decreases cs@.len() - i,
    {
        i = i + 1;
    }
    proof {
        lemma_trim_start_skip(cs@, i as int);
    }
    let ghost t = cs@.skip(i as int);
    let mut k: usize = cs.len();
    while k > i && is_whitespace(cs[k - 1])
        invariant
            cs@ == s@,
            i <= k <= cs@.len(),
            t == cs@.skip(i as int),
            forall|j: int| k <= j < cs@.len() ==> is_ws(#[trigger] cs@[j]),
        decreases k,
    {
        k = k - 1;
    }
    proof {
        assert forall|j: int| (k - i) <= j < t.len() implies is_ws(#[trigger] t[j]) by {
            assert(t[j] == cs@[i + j]);
        }
        lemma_trim_end_take(t, (k - i) as int);
        assert(t.take((k - i) as int) =~= cs@.subrange(i as int, k as int));
        if i < k {
            assert(!is_ws(cs@[i as int]));
        }
    }
    string_of_range(cs.as_slice(), i, k)
}


/// Views of a vector of strings.
pub open spec fn views(v: Seq<String>) -> Seq<Seq<char>> {
    v.map_values(|x: String| x@)
}

proof fn lemma_remove_all_step(cs: Seq<char>, i: int, p: Seq<char>)
    requires
        0 <= i < cs.len(),
        p.len() > 0,
    ensures
        has_prefix(cs.skip(i), p) ==> remove_all_spec(cs.skip(i), p) == remove_all_spec(
            cs.skip(i + p.len()),
            p,
        ),
        !has_prefix(cs.skip(i), p) ==> remove_all_spec(cs.skip(i), p) == seq![cs[i]]
            + remove_all_spec(cs.skip(i + 1), p),
{
    let t = cs.skip(i);
    if has_prefix(t, p) {
        assert(t.skip(p.len() as int) =~= cs.skip(i + p.len()));
    } else {
        assert(t.drop_first() =~= cs.skip(i + 1));
    }
}

/// `s` with every non-overlapping occurrence of `pat` removed, scanning from
/// the left (`str::replace(pat, "")`).
pub fn remove_all(s: &str, pat: &str) -> (r: String)
    ensures
        r@ == remove_all_spec(s@, pat@),
{
    let cs = chars_of(s);
    let pc = chars_of(pat);
    if pc.len() == 0 {
        return owned(s);
    }
    let mut r = String::new();
    let mut i: usize = 0;
    assert(cs@.skip(0) =~= cs@);
    while i < cs.len()
        invariant
            cs@ == s@,
            pc@ == pat@,
            pc@.len() > 0,
            i <= cs@.len(),
            remove_all_spec(cs@, pc@) == r@ + remove_all_spec(cs@.skip(i as int), pc@),
        decreases cs@.len() - i,
    {
        proof {
            lemma_remove_all_step(cs@, i as int, pc@);
        }
        if chars_have_prefix_at(cs.as_slice(), i, pc.as_slice()) {
            i = i + pc.len();
        } else {
            let ghost before = r@;
            push_char(&mut r, cs[i]);
            assert(before + (seq![cs@[i as int]] + remove_all_spec(cs@.skip(i + 1), pc@))
                =~= r@ + remove_all_spec(cs@.skip(i + 1), pc@));
            i = i + 1;
        }
    }
    assert(cs@.skip(i as int) =~= Seq::<char>::empty());
    assert(r@ + Seq::<char>::empty() =~= r@);
    r
}

proof fn lemma_split_nonempty(s: Seq<char>, sep: char)
    ensures
        split_spec(s, sep).len() >= 1,
    decreases s.len(),
{
    if s.len() > 0 {
        lemma_split_nonempty(s.drop_first(), sep);
    }
}

/// The pieces of `s` between occurrences of `sep` (`str::split` on a char).
pub fn split_char(s: &str, sep: char) -> (r: Vec<String>)
    ensures
        views(r@) == split_spec(s@, sep),
{
    let cs = chars_of(s);
    let mut done: Vec<String> = Vec::new();
    let mut cur = String::new();
    let mut i: usize = 0;
    assert(cs@.skip(0) =~= cs@);
    proof {
        lemma_split_nonempty(cs@, sep);
        assert(cur@ + split_spec(cs@, sep)[0] =~= split_spec(cs@, sep)[0]);
        assert(split_spec(cs@, sep) =~= views(done@) + seq![cur@ + split_spec(cs@, sep)[0]]
            + split_spec(cs@, sep).drop_first());
    }
    while i < cs.len()
        invariant
            cs@ == s@,
            i <= cs@.len(),
            split_spec(cs@.skip(i as int), sep).len() >= 1,
            split_spec(cs@, sep) == views(done@) + seq![
                cur@ + split_spec(cs@.skip(i as int), sep)[0],
            ] + split_spec(cs@.skip(i as int), sep).drop_first(),
        decreases cs@.len() - i,
    {
        let ghost t = cs@.skip(i as int);
        let ghost u = cs@.skip(i + 1);
        assert(t.drop_first() =~= u);
        proof {
            lemma_split_nonempty(u, sep);
        }
        let c = cs[i];
        if c == sep {
            let ghost old_done = views(done@);
            let ghost old_cur = cur@;
            done.push(cur);
            cur = String::new();
            assert(views(done@) =~= old_done.push(old_cur));
            assert(split_spec(t, sep) =~= seq![Seq::<char>::empty()] + split_spec(u, sep));
            assert(old_cur + split_spec(t, sep)[0] =~= old_cur);
            assert(cur@ + split_spec(u, sep)[0] =~= split_spec(u, sep)[0]);
            assert(split_spec(u, sep) =~= seq![split_spec(u, sep)[0]] + split_spec(
                u,
                sep,
            ).drop_first());
            assert(views(done@) + seq![cur@ + split_spec(u, sep)[0]] + split_spec(
                u,
                sep,
            ).drop_first() =~= old_done + seq![old_cur + split_spec(t, sep)[0]] + split_spec(
                t,
                sep,
            ).drop_first());
        } else {
            let ghost old_cur = cur@;
            push_char(&mut cur, c);
            assert(split_spec(t, sep) == split_spec(u, sep).update(
                0,
                seq![c] + split_spec(u, sep)[0],
            ));
            assert(old_cur + split_spec(t, sep)[0] =~= cur@ + split_spec(u, sep)[0]);
            assert(split_spec(t, sep).drop_first() =~= split_spec(u, sep).drop_first());
        }
        i = i + 1;
    }
    let ghost last = cs@.skip(i as int);
    assert(last =~= Seq::<char>::empty());
    assert(cur@ + split_spec(last, sep)[0] =~= cur@);
    let ghost prev = views(done@);
    let ghost curv = cur@;
    done.push(cur);
    assert(views(done@) =~= prev.push(curv));
    assert(split_spec(last, sep).drop_first() =~= Seq::<Seq<char>>::empty());
    assert(views(done@) =~= prev + seq![curv] + split_spec(last, sep).drop_first());
    done
}

/// The decimal digit character for `d < 10`.
fn digit(d: u64) -> (c: char)
    requires
        d < 10,
    ensures
        c == digit_char(d as nat),
{
    ((d as u8) + 48) as char
}

/// Decimal representation of an unsigned integer.
pub fn fmt_u64(n: u64) -> (r: String)
    ensures
        r@ == decimal_spec(n as nat),
    decreases n,
{
    if n < 10 {
        let mut r = String::new();
        push_char(&mut r, digit(n));
        assert(r@ =~= seq![digit_char(n as nat)]);
        r
    } else {
        let mut r = fmt_u64(n / 10);
        push_char(&mut r, digit(n % 10));
        r
    }
}

/// Decimal representation of a signed integer, with a `-` when negative.
pub fn fmt_i64(n: i64) -> (r: String)
    ensures
        r@ == signed_decimal_spec(n as int),
{
    if n < 0 {
        let m: u64 = (0i128 - (n as i128)) as u64;
        let mut r = String::new();
        push_char(&mut r, '-');
        let d = fmt_u64(m);
        r.append(d.as_str());
        assert(r@ =~= seq!['-'] + decimal_spec((-n) as nat));
        r
    } else {
        fmt_u64(n as u64)
    }
}

/// `s` right-aligned in a field of `width` characters, padded with spaces.
pub fn pad_left(s: &str, width: usize) -> (r: String)
    ensures
        r@ == pad_left_spec(s@, width as nat),
{
    let n = s.unicode_len();
    if n >= width {
        return owned(s);
    }
    let mut r = String::new();
    let mut i: usize = 0;
    while i < width - n
        invariant
            n == s@.len(),
            n < width,
            i <= width - n,
            r@ == Seq::new(i as nat, |j: int| ' '),
        decreases width - n - i,
    {
        push_char(&mut r, ' ');
        assert(r@ =~= Seq::new((i + 1) as nat, |j: int| ' '));
        i = i + 1;
    }
    r.append(s);
    r
}

proof fn lemma_digits_value_prefix_le(s: Seq<char>, j: int)
    requires
        0 <= j <= s.len(),
    ensures
        digits_value(s.take(j)) <= digits_value(s),
    decreases s.len() - j,
{
    if j < s.len() {
        assert(s.drop_last().take(j) =~= s.take(j));
        lemma_digits_value_prefix_le(s.drop_last(), j);
    } else {
        assert(s.take(j) =~= s);
    }
}

/// `str::parse::<i64>`: an optional sign, then decimal digits only.
pub fn parse_i64(s: &str) -> (r: Option<i64>)
    ensures
        r == parse_i64_spec(s@),
{
    let cs = chars_of(s);
    let neg = cs.len() > 0 && cs[0] == '-';
    let signed = cs.len() > 0 && (cs[0] == '-' || cs[0] == '+');
    let start: usize = if signed { 1 } else { 0 };
    let ghost ds = if signed { cs@.drop_first() } else { cs@ };
    assert(ds =~= cs@.skip(start as int));
    if start >= cs.len() {
        return None;
    }
    let limit: u128 = 0x8000_0000_0000_0000;
    let mut acc: u128 = 0;
    let mut overflow = false;
    let mut j: usize = start;
    while j < cs.len()
        invariant
            cs@ == s@,
            ds == cs@.skip(start as int),
            limit == 0x8000_0000_0000_0000u128,
            signed == (s@.len() > 0 && (s@[0] == '-' || s@[0] == '+')),
            neg == (s@.len() > 0 && s@[0] == '-'),
            ds == unsigned_part(s@),
            start == (if signed { 1usize } else { 0usize }),
            start <= j <= cs@.len(),
            start == 1 || start == 0,
            forall|k: int| start <= k < j ==> is_digit(#[trigger] cs@[k]),
            !overflow ==> acc == digits_value(ds.take(j - start)),
            !overflow ==> acc <= limit,
            overflow ==> digits_value(ds) > limit,
        decreases cs@.len() - j,
    {
        let c = cs[j];
        if !('0' <= c && c <= '9') {
            assert(ds[j - start] == c);
            assert(!is_digit(ds[j - start]));
            assert(0 <= j - start < ds.len());
            assert(!all_digits(ds));
            return None;
        }
        if !overflow {
            let d = (c as u32 - 48) as u128;
            assert(ds.take(j - start + 1).drop_last() =~= ds.take(j - start));
            assert(ds[j - start] == c);
            assert(acc * 10 + d <= 10 * 0x8000_0000_0000_0000u128 + 9) by (nonlinear_arith)
                requires
                    acc <= 0x8000_0000_0000_0000u128,
                    d < 10,
            ;
            acc = acc * 10 + d;
            if acc > limit {
                overflow = true;
                proof {
                    lemma_digits_value_prefix_le(ds, j - start + 1);
                }
            }
        }
        j = j + 1;
    }
    assert(ds.take(ds.len() as int) =~= ds);
    assert(all_digits(ds)) by {
        assert forall|i: int| 0 <= i < ds.len() implies is_digit(#[trigger] ds[i]) by {
            assert(ds[i] == cs@[start + i]);
        }
    }
    if overflow {
        return None;
    }
    if neg {
        let v: i128 = 0i128 - (acc as i128);
        Some(v as i64)
    } else {
        if acc == limit {
            return None;
        }
        Some(acc as i64)
    }
}

/// `s` left-aligned in a field of `width` characters, padded with spaces.
pub open spec fn pad_right_spec(s: Seq<char>, width: nat) -> Seq<char> {
    if s.len() >= width {
        s
    } else {
        s + Seq::new((width - s.len()) as nat, |i: int| ' ')
    }
}

/// `s` left-aligned in a field of `width` characters, padded with spaces.
pub fn pad_right(s: &str, width: usize) -> (r: String)
    ensures
        r@ == pad_right_spec(s@, width as nat),
{
    let n = s.unicode_len();
    let mut r = owned(s);
    if n >= width {
        return r;
    }
    let mut i: usize = 0;
    while i < width - n
        invariant
            n == s@.len(),
            n < width,
            i <= width - n,
            r@ == s@ + Seq::new(i as nat, |j: int| ' '),
        decreases width - n - i,
    {
        push_char(&mut r, ' ');
        assert(r@ =~= s@ + Seq::new((i + 1) as nat, |j: int| ' '));
        i = i + 1;
    }
    r
}

/// `c` repeated `n` times.
pub fn repeat_char(c: char, n: usize) -> (r: String)
    ensures
        r@ == Seq::new(n as nat, |i: int| c),
{
    let mut r = String::new();
    let mut i: usize = 0;
    while i < n
        invariant
            i <= n,
            r@ == Seq::new(i as nat, |j: int| c),
        decreases n - i,
    {
        push_char(&mut r, c);
        assert(r@ =~= Seq::new((i + 1) as nat, |j: int| c));
        i = i + 1;
    }
    r
}

} // verus!
