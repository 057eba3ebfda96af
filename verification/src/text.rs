use vstd::prelude::*;
use vstd::utf8::encode_utf8;

verus! {

/// The characters of `s`, in order.
pub fn chars_of(s: &str) -> (res: Vec<char>)
    ensures
        res@ == s@,
{
    let mut res: Vec<char> = Vec::new();
    for c in it: s.chars()
        invariant
            res@ == it.seq().take(it.index() as int),
    {
        res.push(c);
    }
    res
}

/// Appends one character to a string (std `String::push`).
#[verifier::external_body]
fn push_char(s: &mut String, c: char)
    ensures
        final(s)@ == old(s)@.push(c),
{
    s.push(c);
}

/// A string holding exactly the characters of `v`.
pub fn string_of(v: &Vec<char>) -> (res: String)
    ensures
        res@ == v@,
{
    let mut res = String::new();
    let mut i: usize = 0;
    while i < v.len()
        invariant
            i <= v.len(),
            res@ == v@.take(i as int),
        decreases v.len() - i,
    {
        push_char(&mut res, v[i]);
        assert(v@.take(i + 1) =~= v@.take(i as int).push(v@[i as int]));
        i = i + 1;
    }
    assert(v@.take(v.len() as int) =~= v@);
    res
}

pub open spec fn digit_char(d: int) -> char {
    (d + 48) as char
}

/// Decimal representation of `n`, without leading zeros.
pub open spec fn decimal(n: nat) -> Seq<char>
    decreases n,
{
    if n < 10 {
        seq![digit_char(n as int)]
    } else {
        decimal(n / 10).push(digit_char((n % 10) as int))
    }
}

fn digit_of(d: u64) -> (c: char)
    requires
        d < 10,
    ensures
        c == digit_char(d as int),
{
    ((d as u8) + 48u8) as char
}

/// The decimal representation of `n`.
pub fn decimal_chars(n: u64) -> (res: Vec<char>)
    ensures
        res@ == decimal(n as nat),
    decreases n,
{
    if n < 10 {
        let mut v: Vec<char> = Vec::new();
        v.push(digit_of(n));
        v
    } else {
        let mut v = decimal_chars(n / 10);
        v.push(digit_of(n % 10));
        v
    }
}


/// Index of the last occurrence of `c` in `s`, or -1 when `c` does not occur.
pub open spec fn rfind(s: Seq<char>, c: char) -> int
    decreases s.len(),
{
    if s.len() == 0 {
        -1
    } else if s.last() == c {
        s.len() - 1
    } else {
        rfind(s.drop_last(), c)
    }
}

pub proof fn lemma_rfind_bounds(s: Seq<char>, c: char)
    ensures
        -1 <= rfind(s, c) < s.len(),
        rfind(s, c) >= 0 ==> s[rfind(s, c)] == c,
        forall|j: int| rfind(s, c) < j < s.len() ==> s[j] != c,
    decreases s.len(),
{
    if s.len() > 0 && s.last() != c {
        lemma_rfind_bounds(s.drop_last(), c);
        assert forall|j: int| rfind(s, c) < j < s.len() implies s[j] != c by {
            if j < s.len() - 1 {
                assert(s.drop_last()[j] == s[j]);
            }
        }
    }
}

pub proof fn lemma_rfind_take(s: Seq<char>, c: char, k: int)
    requires
        0 <= k <= s.len(),
        forall|j: int| k <= j < s.len() ==> s[j] != c,
    ensures
        rfind(s, c) == rfind(s.take(k), c),
    decreases s.len() - k,
{
    if k < s.len() {
        assert(s.take(s.len() - 1) =~= s.drop_last());
        lemma_rfind_take(s.drop_last(), c, k);
        assert(s.drop_last().take(k) =~= s.take(k));
    } else {
        assert(s.take(k) =~= s);
    }
}

/// Last position of `c` in `v` (the character form of `str::rfind`).
pub fn rfind_char(v: &Vec<char>, c: char) -> (res: Option<usize>)
    ensures
        match res {
            Some(i) => i as int == rfind(v@, c) && i < v.len(),
            None => rfind(v@, c) == -1,
        },
{
    let mut i: usize = v.len();
    while i > 0
        invariant
            i <= v.len(),
            forall|j: int| i <= j < v.len() ==> v@[j] != c,
        decreases i,
    {
        if v[i - 1] == c {
            proof {
                lemma_rfind_take(v@, c, i as int);
                assert(v@.take(i as int).last() == c);
            }
            return Some(i - 1);
        }
        i = i - 1;
    }
    proof {
        lemma_rfind_take(v@, c, 0);
    }
    None
}

/// The part of `s` after its last `/` (all of `s` when it holds none),
/// as `s.rsplit('/').next()` gives it.
pub open spec fn after_last_slash(s: Seq<char>) -> Seq<char> {
    s.subrange(rfind(s, '/') + 1, s.len() as int)
}

/// The part of `s` before its last `.` (all of `s` when it holds none),
/// as `s.rsplit_once('.')` gives it.
pub open spec fn before_last_dot(s: Seq<char>) -> Seq<char> {
    if rfind(s, '.') >= 0 {
        s.take(rfind(s, '.'))
    } else {
        s
    }
}

/// The characters of `v` from `from` to `to`.
pub fn sub_chars(v: &Vec<char>, from: usize, to: usize) -> (res: Vec<char>)
    requires
        from <= to <= v.len(),
    ensures
        res@ == v@.subrange(from as int, to as int),
{
    let mut res: Vec<char> = Vec::new();
    let mut i = from;
    while i < to
        invariant
            from <= i <= to <= v.len(),
            res@ == v@.subrange(from as int, i as int),
        decreases to - i,
    {
        res.push(v[i]);
        assert(v@.subrange(from as int, i + 1) =~= v@.subrange(from as int, i as int).push(v@[i as int]));
        i = i + 1;
    }
    res
}

/// The file name at the end of a `/`-separated key.
pub fn last_segment(s: &str) -> (res: String)
    ensures
        res@ == after_last_slash(s@),
{
    let v = chars_of(s);
    proof { lemma_rfind_bounds(v@, '/'); }
    let start: usize = match rfind_char(&v, '/') {
        Some(i) => i + 1,
        None => 0,
    };
    let part = sub_chars(&v, start, v.len());
    string_of(&part)
}

/// A file name without its last extension.
pub fn strip_extension(s: &str) -> (res: String)
    ensures
        res@ == before_last_dot(s@),
{
    let v = chars_of(s);
    proof { lemma_rfind_bounds(v@, '.'); }
    match rfind_char(&v, '.') {
        Some(i) => {
            let part = sub_chars(&v, 0, i);
            assert(part@ =~= v@.take(i as int));
            string_of(&part)
        },
        None => string_of(&v),
    }
}

/// Whether the two character sequences are equal.
pub fn chars_eq(a: &Vec<char>, b: &Vec<char>) -> (res: bool)
    ensures
        res == (a@ == b@),
{
    if a.len() != b.len() {
        return false;
    }
    let mut i: usize = 0;
    while i < a.len()
        invariant
            a.len() == b.len(),
            i <= a.len(),
            forall|j: int| 0 <= j < i ==> a@[j] == b@[j],
        decreases a.len() - i,
    {
        if a[i] != b[i] {
            return false;
        }
        i = i + 1;
    }
    assert(a@ =~= b@);
    true
}

/// Whether the two strings are equal.
pub fn str_eq(a: &str, b: &str) -> (res: bool)
    ensures
        res == (a@ == b@),
{
    let va = chars_of(a);
    let vb = chars_of(b);
    chars_eq(&va, &vb)
}

/// Whether `s` begins with `prefix`.
pub fn starts_with(s: &Vec<char>, prefix: &Vec<char>) -> (res: bool)
    ensures
        res == (prefix@.len() <= s@.len() && s@.take(prefix@.len() as int) == prefix@),
{
    if prefix.len() > s.len() {
        return false;
    }
    let mut i: usize = 0;
    while i < prefix.len()
        invariant
            prefix.len() <= s.len(),
            i <= prefix.len(),
            forall|j: int| 0 <= j < i ==> s@[j] == prefix@[j],
        decreases prefix.len() - i,
    {
        if s[i] != prefix[i] {
            assert(s@.take(prefix@.len() as int)[i as int] != prefix@[i as int]);
            return false;
        }
        i = i + 1;
    }
    assert(s@.take(prefix@.len() as int) =~= prefix@);
    true
}

/// Concatenation of two strings.
pub fn concat(a: &str, b: &str) -> (res: String)
    ensures
        res@ == a@ + b@,
{
    let mut v = chars_of(a);
    let w = chars_of(b);
    let mut i: usize = 0;
    let ghost a0 = v@;
    while i < w.len()
        invariant
            i <= w.len(),
            v@ == a0 + w@.take(i as int),
        decreases w.len() - i,
    {
        v.push(w[i]);
        assert(a0 + w@.take(i + 1) =~= (a0 + w@.take(i as int)).push(w@[i as int]));
        i = i + 1;
    }
    assert(w@.take(w.len() as int) =~= w@);
    string_of(&v)
}


pub open spec fn is_digit(c: char) -> bool {
    '0' <= c && c <= '9'
}

/// Value of a run of decimal digits.
pub open spec fn digits_value(s: Seq<char>) -> nat
    decreases s.len(),
{
    if s.len() == 0 {
        0
    } else {
        digits_value(s.drop_last()) * 10 + ((s.last() as int - 48) as nat)
    }
}

/// The digits that `str::parse::<u64>` reads: all of `s`, or `s` without one leading `+`.
pub open spec fn unsigned_body(s: Seq<char>) -> Seq<char> {
    if s.len() > 0 && s[0] == '+' {
        s.drop_first()
    } else {
        s
    }
}

/// What `s.parse::<u64>().ok()` gives: a nonempty run of ASCII digits, after an
/// optional `+`, whose value fits in a `u64`.
pub open spec fn parse_u64_spec(s: Seq<char>) -> Option<u64> {
    let body = unsigned_body(s);
    if body.len() > 0 && (forall|i: int| 0 <= i < body.len() ==> is_digit(#[trigger] body[i]))
        && digits_value(body) <= u64::MAX {
        Some(digits_value(body) as u64)
    } else {
        None
    }
}

proof fn lemma_digits_value_grows(s: Seq<char>, k: int)
    requires
        0 <= k <= s.len(),
        forall|i: int| 0 <= i < s.len() ==> is_digit(#[trigger] s[i]),
    ensures
        digits_value(s.take(k)) <= digits_value(s),
    decreases s.len() - k,
{
    if k < s.len() {
        assert(s.drop_last().take(k) =~= s.take(k));
        lemma_digits_value_grows(s.drop_last(), k);
    } else {
        assert(s.take(k) =~= s);
    }
}

/// Reads an unsigned decimal number as `str::parse::<u64>` does.
pub fn parse_u64(s: &str) -> (res: Option<u64>)
    ensures
        res == parse_u64_spec(s@),
{
    let v = chars_of(s);
    let start: usize = if v.len() > 0 && v[0] == '+' { 1 } else { 0 };
    let ghost body = unsigned_body(v@);
    assert(body =~= v@.subrange(start as int, v@.len() as int));
    if start >= v.len() {
        return None;
    }
    let mut value: u64 = 0;
    let mut i: usize = start;
    while i < v.len()
        invariant
            start <= i <= v.len(),
            v@ == s@,
            body == unsigned_body(s@),
            body =~= v@.subrange(start as int, v@.len() as int),
            forall|j: int| 0 <= j < i - start ==> is_digit(#[trigger] body[j]),
            value as nat == digits_value(body.take(i - start)),
        decreases v.len() - i,
    {
        let c = v[i];
        if !('0' <= c && c <= '9') {
            assert(!is_digit(body[i - start]));
            assert(!(forall|j: int| 0 <= j < body.len() ==> is_digit(#[trigger] body[j])));
            return None;
        }
        let d: u64 = ((c as u32) - 48) as u64;
        assert(body.take(i - start + 1).drop_last() =~= body.take(i - start));
        let ghost next = digits_value(body.take(i - start + 1));
        assert(next == value * 10 + d);
        match value.checked_mul(10) {
            Some(m) => match m.checked_add(d) {
                Some(n) => {
                    value = n;
                },
                None => {
                    proof {
                        assert(next > u64::MAX);
                        if forall|j: int| 0 <= j < body.len() ==> is_digit(#[trigger] body[j]) {
                            lemma_digits_value_grows(body, i - start + 1);
                            assert(digits_value(body) > u64::MAX);
                        }
                    }
                    return None;
                },
            },
            None => {
                proof {
                    if forall|j: int| 0 <= j < body.len() ==> is_digit(#[trigger] body[j]) {
                        lemma_digits_value_grows(body, i - start + 1);
                    }
                }
                return None;
            },
        }
        i = i + 1;
    }
    assert(body.take(body.len() as int) =~= body);
    Some(value)
}

pub open spec fn is_ascii_alpha(c: char) -> bool {
    ('a' <= c && c <= 'z') || ('A' <= c && c <= 'Z')
}

pub open spec fn ascii_upper(c: char) -> char {
    if 'a' <= c && c <= 'z' {
        ((c as int) - 32) as char
    } else {
        c
    }
}

pub open spec fn ascii_lower(c: char) -> char {
    if 'A' <= c && c <= 'Z' {
        ((c as int) + 32) as char
    } else {
        c
    }
}

pub open spec fn ascii_lower_seq(s: Seq<char>) -> Seq<char> {
    Seq::new(s.len(), |i: int| ascii_lower(s[i]))
}

/// `char::is_ascii_alphabetic`.
pub fn char_is_ascii_alpha(c: char) -> (res: bool)
    ensures
        res == is_ascii_alpha(c),
{
    ('a' <= c && c <= 'z') || ('A' <= c && c <= 'Z')
}

/// `char::to_ascii_uppercase`.
pub fn char_ascii_upper(c: char) -> (res: char)
    ensures
        res == ascii_upper(c),
{
    if 'a' <= c && c <= 'z' {
        (((c as u32) - 32) as u8) as char
    } else {
        c
    }
}

/// `char::to_ascii_lowercase`.
pub fn char_ascii_lower(c: char) -> (res: char)
    ensures
        res == ascii_lower(c),
{
    if 'A' <= c && c <= 'Z' {
        (((c as u32) + 32) as u8) as char
    } else {
        c
    }
}

/// `str::to_ascii_lowercase`, on characters.
pub fn ascii_lowercase(v: &Vec<char>) -> (res: Vec<char>)
    ensures
        res@ == ascii_lower_seq(v@),
{
    let mut res: Vec<char> = Vec::new();
    let mut i: usize = 0;
    while i < v.len()
        invariant
            i <= v.len(),
            res@ =~= ascii_lower_seq(v@.take(i as int)),
        decreases v.len() - i,
    {
        res.push(char_ascii_lower(v[i]));
        i = i + 1;
    }
    assert(v@.take(v.len() as int) =~= v@);
    res
}

/// What `str::to_lowercase` gives for a string (Unicode lower case).
pub uninterp spec fn lowercased(s: Seq<char>) -> Seq<char>;

/// `str::to_lowercase`: the contract names its result `lowercased`, a
/// function of the argument alone.
#[verifier::external_body]
pub(crate) fn to_lowercase(s: &str) -> (res: String)
    ensures
        res@ == lowercased(s@),
{
    s.to_lowercase()
}


/// The character views of a list of character vectors.
pub open spec fn views(parts: Seq<Vec<char>>) -> Seq<Seq<char>> {
    Seq::new(parts.len(), |i: int| parts[i]@)
}

/// The pieces of `s` between the occurrences of `sep`, as `str::split` gives them.
pub open spec fn split_on(s: Seq<char>, sep: char) -> Seq<Seq<char>>
    decreases s.len(),
{
    let r = rfind(s, sep);
    if r < 0 {
        seq![s]
    } else {
        proof {
            lemma_rfind_bounds(s, sep);
        }
        split_on(s.take(r), sep).push(s.subrange(r + 1, s.len() as int))
    }
}

/// The pieces joined with `sep` between them, as `[..].join(sep)` gives it.
pub open spec fn join(parts: Seq<Seq<char>>, sep: Seq<char>) -> Seq<char>
    decreases parts.len(),
{
    if parts.len() == 0 {
        Seq::empty()
    } else if parts.len() == 1 {
        parts[0]
    } else {
        join(parts.drop_last(), sep) + sep + parts.last()
    }
}

/// The nonempty pieces, in order.
pub open spec fn drop_empty(parts: Seq<Seq<char>>) -> Seq<Seq<char>>
    decreases parts.len(),
{
    if parts.len() == 0 {
        parts
    } else if parts.last().len() > 0 {
        drop_empty(parts.drop_last()).push(parts.last())
    } else {
        drop_empty(parts.drop_last())
    }
}

pub proof fn lemma_split_nonempty(s: Seq<char>, sep: char)
    ensures
        split_on(s, sep).len() >= 1,
    decreases s.len(),
{
    lemma_rfind_bounds(s, sep);
    if rfind(s, sep) >= 0 {
        lemma_split_nonempty(s.take(rfind(s, sep)), sep);
    }
}

proof fn lemma_split_step(s: Seq<char>, sep: char, i: int)
    requires
        0 <= i < s.len(),
    ensures
        s[i] == sep ==> split_on(s.take(i + 1), sep) == split_on(s.take(i), sep).push(Seq::<char>::empty()),
        s[i] != sep ==> split_on(s.take(i + 1), sep) == split_on(s.take(i), sep).drop_last().push(
            split_on(s.take(i), sep).last().push(s[i])),
{
    let t = s.take(i + 1);
    let u = s.take(i);
    assert(t.drop_last() =~= u);
    lemma_split_nonempty(u, sep);
    if s[i] == sep {
        assert(rfind(t, sep) == i);
        assert(t.take(i) =~= u);
        assert(t.subrange(i + 1, i + 1) =~= Seq::<char>::empty());
    } else {
        assert(rfind(t, sep) == rfind(u, sep));
        let r = rfind(u, sep);
        lemma_rfind_bounds(u, sep);
        if r < 0 {
            assert(t =~= u.push(s[i]));
        } else {
            assert(t.take(r) =~= u.take(r));
            assert(t.subrange(r + 1, i + 1) =~= u.subrange(r + 1, i).push(s[i]));
        }
    }
}

/// The pieces of `v` between occurrences of `sep`.
pub fn split_chars(v: &Vec<char>, sep: char) -> (res: Vec<Vec<char>>)
    ensures
        views(res@) == split_on(v@, sep),
{
    let mut parts: Vec<Vec<char>> = Vec::new();
    let mut cur: Vec<char> = Vec::new();
    let mut i: usize = 0;
    assert(v@.take(0) =~= Seq::<char>::empty());
    assert(views(parts@).push(cur@) =~= split_on(v@.take(0), sep));
    while i < v.len()
        invariant
            i <= v.len(),
            views(parts@).push(cur@) == split_on(v@.take(i as int), sep),
        decreases v.len() - i,
    {
        proof { lemma_split_step(v@, sep, i as int); }
        let ghost before = views(parts@).push(cur@);
        if v[i] == sep {
            let done = cur;
            parts.push(done);
            cur = Vec::new();
            assert(views(parts@).push(cur@) =~= before.push(Seq::<char>::empty()));
        } else {
            cur.push(v[i]);
            assert(views(parts@).push(cur@) =~= before.drop_last().push(before.last().push(v@[i as int])));
        }
        i = i + 1;
    }
    parts.push(cur);
    assert(v@.take(v.len() as int) =~= v@);
    parts
}

proof fn lemma_join_push(parts: Seq<Seq<char>>, sep: Seq<char>, e: Seq<char>)
    ensures
        parts.len() == 0 ==> join(parts.push(e), sep) == e,
        parts.len() > 0 ==> join(parts.push(e), sep) == join(parts, sep) + sep + e,
{
    assert(parts.push(e).drop_last() =~= parts);
    if parts.len() == 0 {
        assert(parts.push(e)[0] == e);
    }
}

/// The pieces joined with `sep` between them.
pub fn join_chars(parts: &Vec<Vec<char>>, sep: &Vec<char>) -> (res: Vec<char>)
    ensures
        res@ == join(views(parts@), sep@),
{
    let mut res: Vec<char> = Vec::new();
    let mut k: usize = 0;
    let ghost all = views(parts@);
    while k < parts.len()
        invariant
            k <= parts.len(),
            all == views(parts@),
            res@ == join(all.take(k as int), sep@),
        decreases parts.len() - k,
    {
        let ghost prev = res@;
        assert(all.take(k + 1) =~= all.take(k as int).push(all[k as int]));
        proof { lemma_join_push(all.take(k as int), sep@, all[k as int]); }
        if k > 0 {
            append_chars(&mut res, sep);
        }
        append_chars(&mut res, &parts[k]);
        assert(res@ =~= join(all.take(k + 1), sep@));
        k = k + 1;
    }
    assert(all.take(parts.len() as int) =~= all);
    res
}

/// Appends the characters of `w` to `v`.
pub fn append_chars(v: &mut Vec<char>, w: &Vec<char>)
    ensures
        final(v)@ == old(v)@ + w@,
{
    let mut i: usize = 0;
    let ghost v0 = v@;
    while i < w.len()
        invariant
            i <= w.len(),
            v@ == v0 + w@.take(i as int),
        decreases w.len() - i,
    {
        v.push(w[i]);
        assert(v0 + w@.take(i + 1) =~= (v0 + w@.take(i as int)).push(w@[i as int]));
        i = i + 1;
    }
    assert(w@.take(w.len() as int) =~= w@);
}

/// The nonempty pieces joined with `sep`.
pub fn join_nonempty(parts: &Vec<Vec<char>>, sep: &Vec<char>) -> (res: Vec<char>)
    ensures
        res@ == join(drop_empty(views(parts@)), sep@),
{
    let mut res: Vec<char> = Vec::new();
    let mut count: usize = 0;
    let mut k: usize = 0;
    let ghost all = views(parts@);
    while k < parts.len()
        invariant
            k <= parts.len(),
            all == views(parts@),
            count <= k,
            count == drop_empty(all.take(k as int)).len(),
            res@ == join(drop_empty(all.take(k as int)), sep@),
        decreases parts.len() - k,
    {
        assert(all.take(k + 1).drop_last() =~= all.take(k as int));
        assert(all.take(k + 1).last() == all[k as int]);
        if parts[k].len() > 0 {
            proof { lemma_join_push(drop_empty(all.take(k as int)), sep@, all[k as int]); }
            if count > 0 {
                append_chars(&mut res, sep);
            }
            append_chars(&mut res, &parts[k]);
            count = count + 1;
        }
        k = k + 1;
    }
    assert(all.take(parts.len() as int) =~= all);
    res
}

/// A bucket path with leading, trailing and doubled slashes removed.
pub open spec fn normalized_path(p: Seq<char>) -> Seq<char> {
    join(drop_empty(split_on(p, '/')), seq!['/'])
}

/// Removes leading and trailing slashes and collapses doubled ones.
pub fn normalize_path(path: &str) -> (res: String)
    ensures
        res@ == normalized_path(path@),
{
    let v = chars_of(path);
    let parts = split_chars(&v, '/');
    let mut sep: Vec<char> = Vec::new();
    sep.push('/');
    assert(sep@ =~= seq!['/']);
    let joined = join_nonempty(&parts, &sep);
    string_of(&joined)
}


/// No piece holds `sep`.
pub open spec fn free_of(parts: Seq<Seq<char>>, sep: char) -> bool {
    forall|i: int, j: int| 0 <= i < parts.len() && 0 <= j < parts[i].len() ==> #[trigger] parts[i][j] != sep
}

/// No piece is empty.
pub open spec fn all_nonempty(parts: Seq<Seq<char>>) -> bool {
    forall|i: int| 0 <= i < parts.len() ==> (#[trigger] parts[i]).len() > 0
}

proof fn lemma_split_free(s: Seq<char>, sep: char)
    ensures
        free_of(split_on(s, sep), sep),
    decreases s.len(),
{
    lemma_rfind_bounds(s, sep);
    let r = rfind(s, sep);
    if r >= 0 {
        lemma_split_free(s.take(r), sep);
        let front = split_on(s.take(r), sep);
        let tail = s.subrange(r + 1, s.len() as int);
        let all = front.push(tail);
        assert forall|i: int, j: int| 0 <= i < all.len() && 0 <= j < all[i].len() implies #[trigger] all[i][j] != sep by {
            if i < front.len() {
                assert(all[i] == front[i]);
            } else {
                assert(all[i][j] == s[r + 1 + j]);
            }
        }
    } else {
        assert forall|i: int, j: int| 0 <= i < seq![s].len() && 0 <= j < seq![s][i].len()
            implies #[trigger] seq![s][i][j] != sep by {
            assert(seq![s][i] == s);
        }
    }
}

proof fn lemma_drop_empty_props(parts: Seq<Seq<char>>, sep: char)
    ensures
        all_nonempty(drop_empty(parts)),
        free_of(parts, sep) ==> free_of(drop_empty(parts), sep),
        all_nonempty(parts) ==> drop_empty(parts) == parts,
    decreases parts.len(),
{
    if parts.len() > 0 {
        let rest = parts.drop_last();
        lemma_drop_empty_props(rest, sep);
        assert(free_of(parts, sep) ==> free_of(rest, sep)) by {
            if free_of(parts, sep) {
                assert forall|i: int, j: int| 0 <= i < rest.len() && 0 <= j < rest[i].len()
                    implies #[trigger] rest[i][j] != sep by {
                    assert(rest[i] == parts[i]);
                }
            }
        }
        assert(all_nonempty(parts) ==> all_nonempty(rest)) by {
            if all_nonempty(parts) {
                assert forall|i: int| 0 <= i < rest.len() implies (#[trigger] rest[i]).len() > 0 by {
                    assert(rest[i] == parts[i]);
                }
            }
        }
        if parts.last().len() > 0 {
            let d = drop_empty(rest).push(parts.last());
            assert forall|i: int| 0 <= i < d.len() implies (#[trigger] d[i]).len() > 0 by {
                if i < d.len() - 1 {
                    assert(d[i] == drop_empty(rest)[i]);
                }
            }
            if free_of(parts, sep) {
                assert forall|i: int, j: int| 0 <= i < d.len() && 0 <= j < d[i].len() implies #[trigger] d[i][j] != sep by {
                    if i < d.len() - 1 {
                        assert(d[i] == drop_empty(rest)[i]);
                    } else {
                        assert(d[i][j] == parts[parts.len() - 1][j]);
                    }
                }
            }
            if all_nonempty(parts) {
                assert(rest.push(parts.last()) =~= parts);
            }
        } else {
            assert(parts[parts.len() - 1].len() == 0);
        }
    }
}

proof fn lemma_split_join(parts: Seq<Seq<char>>, sep: char)
    requires
        parts.len() >= 1,
        free_of(parts, sep),
    ensures
        split_on(join(parts, seq![sep]), sep) == parts,
    decreases parts.len(),
{
    if parts.len() == 1 {
        let s = parts[0];
        lemma_rfind_bounds(s, sep);
        if rfind(s, sep) >= 0 {
            assert(parts[0][rfind(s, sep)] != sep);
        }
        assert(seq![s] =~= parts);
    } else {
        let rest = parts.drop_last();
        let a = join(rest, seq![sep]);
        let b = parts.last();
        let s = a + seq![sep] + b;
        assert(join(parts, seq![sep]) == s);
        let r = a.len() as int;
        assert forall|j: int| r + 1 <= j < s.len() implies s[j] != sep by {
            assert(s[j] == b[j - r - 1]);
            assert(parts[parts.len() - 1][j - r - 1] != sep);
        }
        lemma_rfind_take(s, sep, r + 1);
        assert(s.take(r + 1).last() == sep);
        assert(rfind(s.take(r + 1), sep) == r);
        assert(s.take(r) =~= a);
        assert(s.subrange(r + 1, s.len() as int) =~= b);
        assert forall|i: int, j: int| 0 <= i < rest.len() && 0 <= j < rest[i].len() implies #[trigger] rest[i][j] != sep by {
            assert(rest[i] == parts[i]);
        }
        lemma_split_join(rest, sep);
        assert(rest.push(b) =~= parts);
    }
}

/// Normalizing a bucket path that is already normalized leaves it unchanged.
pub proof fn law_normalize_idempotent(p: Seq<char>)
    ensures
        normalized_path(normalized_path(p)) == normalized_path(p),
{
    let q = drop_empty(split_on(p, '/'));
    lemma_split_free(p, '/');
    lemma_drop_empty_props(split_on(p, '/'), '/');
    if q.len() == 0 {
        assert(normalized_path(p) =~= Seq::<char>::empty());
        assert(rfind(Seq::<char>::empty(), '/') == -1);
        let e = seq![Seq::<char>::empty()];
        assert(split_on(Seq::<char>::empty(), '/') == e);
        assert(e.drop_last() =~= Seq::<Seq<char>>::empty());
        assert(drop_empty(e) == drop_empty(Seq::<Seq<char>>::empty()));
    } else {
        lemma_split_join(q, '/');
        lemma_drop_empty_props(q, '/');
    }
}

/// A path with no `/` at its start or its end, and none doubled.
pub open spec fn clean_path(r: Seq<char>) -> bool {
    &&& r.len() > 0 ==> r[0] != '/' && r.last() != '/'
    &&& forall|i: int| 0 <= i < r.len() - 1 ==> !(#[trigger] r[i] == '/' && r[i + 1] == '/')
}

/// The segments of a path: its nonempty pieces between slashes, in order.
pub open spec fn segments(p: Seq<char>) -> Seq<Seq<char>> {
    drop_empty(split_on(p, '/'))
}

proof fn lemma_join_clean(parts: Seq<Seq<char>>)
    requires
        parts.len() >= 1,
        all_nonempty(parts),
        free_of(parts, '/'),
    ensures
        join(parts, seq!['/']).len() > 0,
        clean_path(join(parts, seq!['/'])),
    decreases parts.len(),
{
    if parts.len() == 1 {
        let s = parts[0];
        assert(s.len() > 0);
        assert forall|i: int| 0 <= i < s.len() implies s[i] != '/' by {
            assert(parts[0][i] != '/');
        }
    } else {
        let rest = parts.drop_last();
        assert forall|i: int| 0 <= i < rest.len() implies (#[trigger] rest[i]).len() > 0 by {
            assert(rest[i] == parts[i]);
        }
        assert forall|i: int, j: int| 0 <= i < rest.len() && 0 <= j < rest[i].len() implies #[trigger] rest[i][j] != '/' by {
            assert(rest[i] == parts[i]);
        }
        lemma_join_clean(rest);
        let a = join(rest, seq!['/']);
        let b = parts.last();
        assert(b == parts[parts.len() - 1]);
        assert(b.len() > 0);
        assert forall|j: int| 0 <= j < b.len() implies b[j] != '/' by {
            assert(parts[parts.len() - 1][j] != '/');
        }
        let s = a + seq!['/'] + b;
        assert(join(parts, seq!['/']) == s);
        assert(s[0] == a[0]);
        assert(s.last() == b.last());
        assert forall|i: int| 0 <= i < s.len() - 1 implies !(#[trigger] s[i] == '/' && s[i + 1] == '/') by {
            if i < a.len() - 1 {
                assert(s[i] == a[i] && s[i + 1] == a[i + 1]);
            } else if i == a.len() - 1 {
                assert(s[i] == a.last());
            } else if i == a.len() {
                assert(s[i + 1] == b[0]);
            } else {
                assert(s[i] == b[i - a.len() - 1]);
            }
        }
    }
}

/// A normalized bucket path has no leading, trailing or doubled slash, and
/// keeps the segments of the path it came from, in order.
pub proof fn law_normalize_shape(p: Seq<char>)
    ensures
        clean_path(normalized_path(p)),
        segments(normalized_path(p)) == segments(p),
{
    let q = drop_empty(split_on(p, '/'));
    lemma_split_free(p, '/');
    lemma_drop_empty_props(split_on(p, '/'), '/');
    if q.len() == 0 {
        assert(normalized_path(p) =~= Seq::<char>::empty());
        assert(rfind(Seq::<char>::empty(), '/') == -1);
        let e = seq![Seq::<char>::empty()];
        assert(split_on(Seq::<char>::empty(), '/') == e);
        assert(e.drop_last() =~= Seq::<Seq<char>>::empty());
        assert(drop_empty(e) == drop_empty(Seq::<Seq<char>>::empty()));
    } else {
        lemma_join_clean(q);
        lemma_split_join(q, '/');
        lemma_drop_empty_props(q, '/');
    }
}

/// Whether `t` occurs in `s`.
pub open spec fn has_substring(s: Seq<char>, t: Seq<char>) -> bool {
    exists|i: int| 0 <= i && i + t.len() <= s.len() && #[trigger] s.subrange(i, i + t.len()) == t
}

/// Whether `t` occurs in `s`, as `str::contains` says.
pub fn contains_chars(s: &Vec<char>, t: &Vec<char>) -> (res: bool)
    ensures
        res == has_substring(s@, t@),
{
    if t.len() > s.len() {
        return false;
    }
    if t.len() == 0 {
        assert(s@.subrange(0int, 0int + t@.len()) =~= t@);
        return true;
    }
    let mut i: usize = 0;
    let last = s.len() - t.len();
    while i <= last
        invariant
            0 < t.len() <= s.len(),
            last == s.len() - t.len(),
            i <= last + 1,
            forall|k: int| 0 <= k < i ==> #[trigger] s@.subrange(k, k + t@.len()) != t@,
        decreases last + 1 - i,
    {
        let mut j: usize = 0;
        let mut same = true;
        while j < t.len()
            invariant
                i + t.len() <= s.len(),
                j <= t.len(),
                same ==> forall|m: int| 0 <= m < j ==> s@[i + m] == t@[m],
                !same ==> s@.subrange(i as int, i + t@.len()) != t@,
            decreases t.len() - j,
        {
            if same && s[i + j] != t[j] {
                assert(s@.subrange(i as int, i + t@.len())[j as int] != t@[j as int]);
                same = false;
            }
            j = j + 1;
        }
        if same {
            assert(s@.subrange(i as int, i + t@.len()) =~= t@);
            return true;
        }
        i = i + 1;
    }
    proof {
        assert forall|k: int| 0 <= k && k + t@.len() <= s@.len() implies #[trigger] s@.subrange(k, k + t@.len()) != t@ by {
            assert(k < i);
        }
    }
    false
}

/// Whether `s` ends with `t`.
pub open spec fn ends_with(s: Seq<char>, t: Seq<char>) -> bool {
    t.len() <= s.len() && s.subrange(s.len() - t.len(), s.len() as int) == t
}

/// Whether `s` ends with `t`, as `str::ends_with` says.
pub fn ends_with_chars(s: &Vec<char>, t: &Vec<char>) -> (res: bool)
    ensures
        res == ends_with(s@, t@),
{
    if t.len() > s.len() {
        return false;
    }
    let off = s.len() - t.len();
    let mut j: usize = 0;
    while j < t.len()
        invariant
            off + t.len() == s.len(),
            j <= t.len(),
            forall|m: int| 0 <= m < j ==> s@[off + m] == t@[m],
        decreases t.len() - j,
    {
        if s[off + j] != t[j] {
            assert(s@.subrange(off as int, s@.len() as int)[j as int] != t@[j as int]);
            return false;
        }
        j = j + 1;
    }
    assert(s@.subrange(off as int, s@.len() as int) =~= t@);
    true
}


/// The UTF-8 bytes of two texts one after the other are the bytes of each, one after the other.
pub proof fn lemma_encode_utf8_concat(a: Seq<char>, b: Seq<char>)
    ensures
        encode_utf8(a + b) == encode_utf8(a) + encode_utf8(b),
    decreases a.len(),
{
    if a.len() == 0 {
        assert(a + b =~= b);
    } else {
        assert((a + b).drop_first() =~= a.drop_first() + b);
        assert((a + b)[0] == a[0]);
        lemma_encode_utf8_concat(a.drop_first(), b);
    }
}

/// The decimal representation of `n`, as a string.
pub fn decimal_string(n: u64) -> (res: String)
    ensures
        res@ == decimal(n as nat),
{
    let v = decimal_chars(n);
    string_of(&v)
}

} // verus!
