use vstd::prelude::*;
use vstd::std_specs::iter::IteratorSpec;

verus! {

/// Lexicographic order of two texts by the code points of their characters, which is the order
/// of their UTF-8 bytes.
pub open spec fn text_lt(a: Seq<char>, b: Seq<char>) -> bool
    decreases a.len(),
{
    if b.len() == 0 {
        false
    } else if a.len() == 0 {
        true
    } else if a[0] == b[0] {
        text_lt(a.drop_first(), b.drop_first())
    } else {
        (a[0] as int) < (b[0] as int)
    }
}

/// `a` stands at or before `b`.
pub open spec fn text_le(a: Seq<char>, b: Seq<char>) -> bool {
    !text_lt(b, a)
}

pub proof fn lemma_text_lt_irreflexive(a: Seq<char>)
    ensures
        !text_lt(a, a),
    decreases a.len(),
{
    if a.len() > 0 {
        lemma_text_lt_irreflexive(a.drop_first());
    }
}

pub proof fn lemma_text_lt_transitive(a: Seq<char>, b: Seq<char>, c: Seq<char>)
    requires
        text_lt(a, b),
        text_lt(b, c),
    ensures
        text_lt(a, c),
    decreases a.len(),
{
    if a.len() > 0 && b.len() > 0 && c.len() > 0 && a[0] == b[0] && b[0] == c[0] {
        lemma_text_lt_transitive(a.drop_first(), b.drop_first(), c.drop_first());
    }
}

pub proof fn lemma_text_lt_total(a: Seq<char>, b: Seq<char>)
    ensures
        text_lt(a, b) || a == b || text_lt(b, a),
    decreases a.len(),
{
    if a.len() == 0 {
        if b.len() == 0 {
            assert(a =~= b);
        }
    } else if b.len() > 0 && a[0] == b[0] {
        lemma_text_lt_total(a.drop_first(), b.drop_first());
        if a.drop_first() == b.drop_first() {
            assert(a =~= seq![a[0]] + a.drop_first());
            assert(b =~= seq![b[0]] + b.drop_first());
        }
    }
}

/// Whether `a` stands before `b`.
pub fn is_before(a: &str, b: &str) -> (r: bool)
    ensures
        r == text_lt(a@, b@),
{
    let mut x = a.chars();
    let mut y = b.chars();
    loop
        invariant
            x.decrease() is Some,
            text_lt(a@, b@) == text_lt(x.remaining(), y.remaining()),
        decreases x.decrease()->0,
    {
        let ghost xs = x.remaining();
        let ghost ys = y.remaining();
        match (x.next(), y.next()) {
            (Some(c), Some(d)) => {
                if c != d {
                    return c < d;
                }
            },
            (None, Some(_)) => {
                return true;
            },
            (_, None) => {
                return false;
            },
        }
    }
}

/// Whether the two texts are the same.
pub fn same(a: &str, b: &str) -> (r: bool)
    ensures
        r == (a@ == b@),
{
    let mut x = a.chars();
    let mut y = b.chars();
    loop
        invariant
            x.decrease() is Some,
            (a@ == b@) == (x.remaining() == y.remaining()),
        decreases x.decrease()->0,
    {
        let ghost xs = x.remaining();
        let ghost ys = y.remaining();
        match (x.next(), y.next()) {
            (Some(c), Some(d)) => {
                if c != d {
                    return false;
                }
                proof {
                    assert(xs =~= seq![xs[0]] + xs.drop_first());
                    assert(ys =~= seq![ys[0]] + ys.drop_first());
                }
            },
            (None, None) => {
                assert(xs =~= ys);
                return true;
            },
            _ => {
                return false;
            },
        }
    }
}

/// The characters of a text.
pub fn letters(s: &str) -> (r: Vec<char>)
    ensures
        r@ == s@,
{
    let mut r: Vec<char> = Vec::new();
    let mut x = s.chars();
    loop
        invariant
            x.decrease() is Some,
            r@ + x.remaining() == s@,
        decreases x.decrease()->0,
    {
        let ghost xs = x.remaining();
        match x.next() {
            Some(c) => {
                r.push(c);
                assert(r@ + x.remaining() =~= s@);
            },
            None => {
                assert(r@ =~= s@);
                return r;
            },
        }
    }
}

/// `part` stands in `whole` from position `i` on.
pub open spec fn stands_at(whole: Seq<char>, part: Seq<char>, i: int) -> bool {
    0 <= i && i + part.len() <= whole.len() && whole.subrange(i, i + part.len()) == part
}

/// `part` stands somewhere in `whole`.
pub open spec fn has_part(whole: Seq<char>, part: Seq<char>) -> bool {
    exists|i: int| #[trigger] stands_at(whole, part, i)
}

fn matches_at(whole: &Vec<char>, part: &Vec<char>, i: usize) -> (r: bool)
    requires
        i + part@.len() <= whole@.len(),
    ensures
        r == stands_at(whole@, part@, i as int),
{
    let n: usize = whole.len();
    let mut j: usize = 0;
    while j < part.len()
        invariant
            n == whole@.len(),
            i + part@.len() <= whole@.len(),
            j <= part@.len(),
            forall|k: int| 0 <= k < j ==> whole@[i + k] == #[trigger] part@[k],
        decreases part@.len() - j,
    {
        if whole[i + j] != part[j] {
            assert(whole@.subrange(i as int, i + part@.len())[j as int] != part@[j as int]);
            return false;
        }
        j = j + 1;
    }
    assert(whole@.subrange(i as int, i + part@.len()) =~= part@);
    true
}

/// Whether `part` stands somewhere in `whole`.
pub fn contains(whole: &Vec<char>, part: &str) -> (r: bool)
    ensures
        r == has_part(whole@, part@),
{
    let sought = letters(part);
    if sought.len() > whole.len() {
        return false;
    }
    let end: usize = whole.len() - sought.len();
    let mut i: usize = 0;
    loop
        invariant
            sought@ == part@,
            end == whole@.len() - sought@.len(),
            i <= end,
            forall|k: int| 0 <= k < i ==> !#[trigger] stands_at(whole@, part@, k),
        decreases end - i,
    {
        if matches_at(whole, &sought, i) {
            return true;
        }
        if i == end {
            return false;
        }
        i = i + 1;
    }
}

/// Whether `whole` begins with `part`.
pub fn starts_with(whole: &str, part: &str) -> (r: bool)
    ensures
        r == stands_at(whole@, part@, 0),
{
    let whole = letters(whole);
    let part = letters(part);
    part.len() <= whole.len() && matches_at(&whole, &part, 0)
}

/// Whether `part` stands in `whole` at `i`.
pub fn stands(whole: &Vec<char>, part: &str, i: usize) -> (r: bool)
    requires
        i <= whole@.len(),
    ensures
        r == stands_at(whole@, part@, i as int),
{
    let part = letters(part);
    part.len() <= whole.len() - i && matches_at(whole, &part, i)
}

/// Whether `whole` ends with `part`.
pub fn ends_with(whole: &str, part: &str) -> (r: bool)
    ensures
        r == stands_at(whole@, part@, whole@.len() - part@.len()),
{
    let whole = letters(whole);
    let part = letters(part);
    part.len() <= whole.len() && matches_at(&whole, &part, whole.len() - part.len())
}

/// The white space of Unicode.
pub open spec fn is_space(c: char) -> bool {
    let n = c as int;
    ||| 0x09 <= n <= 0x0d
    ||| n == 0x20 || n == 0x85 || n == 0xa0 || n == 0x1680
    ||| 0x2000 <= n <= 0x200a
    ||| n == 0x2028 || n == 0x2029 || n == 0x202f || n == 0x205f || n == 0x3000
}

/// Nothing but white space.
pub open spec fn blank(s: Seq<char>) -> bool {
    forall|i: int| 0 <= i < s.len() ==> is_space(#[trigger] s[i])
}

fn white(c: char) -> (r: bool)
    ensures
        r == is_space(c),
{
    ('\u{9}' <= c && c <= '\u{d}') || c == '\u{20}' || c == '\u{85}' || c == '\u{a0}' || c
        == '\u{1680}' || ('\u{2000}' <= c && c <= '\u{200a}') || c == '\u{2028}' || c == '\u{2029}'
        || c == '\u{202f}' || c == '\u{205f}' || c == '\u{3000}'
}

/// Whether there is nothing in the text but white space.
pub fn is_blank(s: &str) -> (r: bool)
    ensures
        r == blank(s@),
{
    let v = letters(s);
    let mut i: usize = 0;
    while i < v.len()
        invariant
            i <= v@.len(),
            v@ == s@,
            forall|k: int| 0 <= k < i ==> is_space(#[trigger] v@[k]),
        decreases v@.len() - i,
    {
        if !white(v[i]) {
            return false;
        }
        i = i + 1;
    }
    true
}

/// The two texts, one behind the other.
pub fn join(a: &str, b: &str) -> (r: String)
    ensures
        r@ == a@ + b@,
{
    let mut r = a.to_owned();
    r.append(b);
    r
}

/// The decimal digit of `d`.
pub open spec fn digit(d: nat) -> char {
    if d == 0 {
        '0'
    } else if d == 1 {
        '1'
    } else if d == 2 {
        '2'
    } else if d == 3 {
        '3'
    } else if d == 4 {
        '4'
    } else if d == 5 {
        '5'
    } else if d == 6 {
        '6'
    } else if d == 7 {
        '7'
    } else if d == 8 {
        '8'
    } else {
        '9'
    }
}

/// `n` in decimal, without leading zeros.
pub open spec fn decimal_of(n: nat) -> Seq<char>
    decreases n,
{
    if n < 10 {
        seq![digit(n)]
    } else {
        decimal_of(n / 10).push(digit(n % 10))
    }
}

fn digit_text(d: u64) -> (r: &'static str)
    requires
        d < 10,
    ensures
        r@ == seq![digit(d as nat)],
{
    proof {
        reveal_strlit("0");
        reveal_strlit("1");
        reveal_strlit("2");
        reveal_strlit("3");
        reveal_strlit("4");
        reveal_strlit("5");
        reveal_strlit("6");
        reveal_strlit("7");
        reveal_strlit("8");
        reveal_strlit("9");
    }
    let r = if d == 0 {
        "0"
    } else if d == 1 {
        "1"
    } else if d == 2 {
        "2"
    } else if d == 3 {
        "3"
    } else if d == 4 {
        "4"
    } else if d == 5 {
        "5"
    } else if d == 6 {
        "6"
    } else if d == 7 {
        "7"
    } else if d == 8 {
        "8"
    } else {
        "9"
    };
    assert(r@ =~= seq![digit(d as nat)]);
    r
}

/// `n` in decimal.
pub fn decimal(n: u64) -> (r: String)
    ensures
        r@ == decimal_of(n as nat),
    decreases n,
{
    if n < 10 {
        digit_text(n).to_owned()
    } else {
        let mut r = decimal(n / 10);
        r.append(digit_text(n % 10));
        assert(r@ =~= decimal_of((n / 10) as nat).push(digit((n % 10) as nat)));
        r
    }
}

/// A result told in mathematical values.
pub open spec fn told<T: DeepView>(r: Result<T, String>) -> Result<T::V, Seq<char>> {
    match r {
        Ok(v) => Ok(v.deep_view()),
        Err(e) => Err(e@),
    }
}

/// The order of texts, on their letters.
pub fn letters_before(a: &Vec<char>, b: &Vec<char>) -> (r: bool)
    ensures
        r == text_lt(a@, b@),
{
    let n: usize = a.len();
    let m: usize = b.len();
    let mut i: usize = 0;
    assert(a@.skip(0) =~= a@ && b@.skip(0) =~= b@);
    while i < n && i < m
        invariant
            n == a@.len(),
            m == b@.len(),
            i <= n,
            i <= m,
            text_lt(a@, b@) == text_lt(a@.skip(i as int), b@.skip(i as int)),
        decreases n - i,
    {
        assert(a@.skip(i as int).drop_first() =~= a@.skip(i + 1));
        assert(b@.skip(i as int).drop_first() =~= b@.skip(i + 1));
        if a[i] < b[i] {
            return true;
        }
        if b[i] < a[i] {
            return false;
        }
        i += 1;
    }
    i < m
}

/// A copy of the letters from `from` to `to`.
pub fn part_of(s: &str, from: usize, to: usize) -> (r: String)
    requires
        from <= to <= s@.len(),
    ensures
        r@ == s@.subrange(from as int, to as int),
{
    s.substring_char(from, to).to_owned()
}

/// Where the part of a path behind its last slash starts.
pub open spec fn name_start(path: Seq<char>) -> int
    decreases path.len(),
{
    if path.len() == 0 || path.last() == '/' {
        path.len() as int
    } else {
        name_start(path.drop_last())
    }
}

/// Where a path ends apart from the slashes at its end.
pub open spec fn name_end(path: Seq<char>) -> int
    decreases path.len(),
{
    if path.len() == 0 || path.last() != '/' {
        path.len() as int
    } else {
        name_end(path.drop_last())
    }
}

/// The last part of a path that is not empty; the path itself where it has none.
pub open spec fn last_part(path: Seq<char>) -> Seq<char> {
    let end = name_end(path);
    if end == 0 {
        path
    } else {
        path.subrange(name_start(path.take(end)), end)
    }
}

pub fn find_name_start(path: &Vec<char>, end: usize) -> (r: usize)
    requires
        end <= path@.len(),
    ensures
        r == name_start(path@.take(end as int)),
        r <= end,
{
    let mut i: usize = end;
    while i > 0 && path[i - 1] != '/'
        invariant
            i <= end <= path@.len(),
            name_start(path@.take(end as int)) == name_start(path@.take(i as int)),
        decreases i,
    {
        assert(path@.take(i as int).drop_last() =~= path@.take(i - 1));
        i -= 1;
    }
    i
}

/// The last part of a path that is not empty.
pub fn find_last_part(path: &str) -> (r: String)
    ensures
        r@ == last_part(path@),
{
    let all = letters(path);
    let n: usize = all.len();
    let mut end: usize = n;
    assert(all@.take(n as int) =~= all@);
    while end > 0 && all[end - 1] == '/'
        invariant
            n == all@.len(),
            end <= n,
            name_end(all@) == name_end(all@.take(end as int)),
        decreases end,
    {
        assert(all@.take(end as int).drop_last() =~= all@.take(end - 1));
        end -= 1;
    }
    if end == 0 {
        path.to_owned()
    } else {
        let start: usize = find_name_start(&all, end);
        part_of(path, start, end)
    }
}

} // verus!
