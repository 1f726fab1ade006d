use vstd::prelude::*;
use vstd::string::*;

verus! {

/// Whether `sep` occurs in `s` starting at index `k`.
pub open spec fn occurs_at<A>(s: Seq<A>, sep: Seq<A>, k: int) -> bool {
    0 <= k && k + sep.len() <= s.len() && s.subrange(k, k + sep.len()) == sep
}

/// The first index at or after `k` where `sep` occurs in `s`.
pub open spec fn find_from<A>(s: Seq<A>, sep: Seq<A>, k: int) -> Option<int>
    decreases s.len() + 1 - k,
{
    if k < 0 || k + sep.len() > s.len() {
        None
    } else if s.subrange(k, k + sep.len()) == sep {
        Some(k)
    } else {
        find_from(s, sep, k + 1)
    }
}

/// `s` cut at every occurrence of the non-empty separator `sep`, scanning
/// from the left; the separators themselves are dropped.
pub open spec fn split_by<A>(s: Seq<A>, sep: Seq<A>) -> Seq<Seq<A>>
    decreases s.len(),
{
    if sep.len() == 0 {
        seq![s]
    } else {
        match find_from(s, sep, 0) {
            Some(i) => if 0 <= i && i + sep.len() <= s.len() {
                seq![s.take(i)] + split_by(s.skip(i + sep.len()), sep)
            } else {
                seq![s]
            },
            None => seq![s],
        }
    }
}

/// Whether `c` is an ASCII decimal digit.
pub open spec fn is_digit(c: char) -> bool {
    '0' <= c && c <= '9'
}

/// The decimal number written by the digits `d`.
pub open spec fn digits_value(d: Seq<char>) -> nat
    decreases d.len(),
{
    if d.len() == 0 {
        0
    } else {
        digits_value(d.drop_last()) * 10 + ((d.last() as int - '0' as int) as nat)
    }
}

/// The port written by `d`: one or more decimal digits whose value fits in 16 bits.
pub open spec fn port_value(d: Seq<char>) -> Option<u16> {
    if d.len() > 0 && (forall|i: int| 0 <= i < d.len() ==> is_digit(#[trigger] d[i]))
        && digits_value(d) <= 65535 {
        Some(digits_value(d) as u16)
    } else {
        None
    }
}

pub proof fn lemma_find_from_found<A>(s: Seq<A>, sep: Seq<A>, k: int)
    requires
        find_from(s, sep, k) is Some,
    ensures
        ({
            let i = find_from(s, sep, k)->Some_0;
            &&& k <= i
            &&& occurs_at(s, sep, i)
            &&& forall|j: int| k <= j < i ==> !occurs_at(s, sep, j)
        }),
    decreases s.len() + 1 - k,
{
    if k < 0 || k + sep.len() > s.len() {
    } else if s.subrange(k, k + sep.len()) == sep {
    } else {
        lemma_find_from_found(s, sep, k + 1);
    }
}

pub proof fn lemma_find_from_none<A>(s: Seq<A>, sep: Seq<A>, k: int)
    requires
        0 <= k,
        find_from(s, sep, k) is None,
    ensures
        forall|j: int| k <= j ==> !occurs_at(s, sep, j),
    decreases s.len() + 1 - k,
{
    if k + sep.len() > s.len() {
    } else if s.subrange(k, k + sep.len()) == sep {
    } else {
        lemma_find_from_none(s, sep, k + 1);
    }
}

/// Searching a suffix finds the same occurrence, shifted.
pub proof fn lemma_find_from_skip<A>(s: Seq<A>, sep: Seq<A>, k: int, j: int)
    requires
        0 <= k <= s.len(),
        0 <= j,
    ensures
        find_from(s, sep, k + j) == (match find_from(s.skip(k), sep, j) {
            Some(i) => Some(i + k),
            None => None::<int>,
        }),
    decreases s.len() + 1 - (k + j),
{
    if k + j + sep.len() > s.len() {
    } else {
        assert(s.skip(k).subrange(j, j + sep.len()) =~= s.subrange(k + j, k + j + sep.len()));
        if s.subrange(k + j, k + j + sep.len()) == sep {
        } else {
            lemma_find_from_skip(s, sep, k, j + 1);
        }
    }
}

/// No occurrence of `sep` between `k` and `m` leaves the search unchanged.
pub proof fn lemma_find_from_advance<A>(s: Seq<A>, sep: Seq<A>, k: int, m: int)
    requires
        0 <= k <= m,
        forall|j: int| k <= j < m ==> !occurs_at(s, sep, j),
    ensures
        find_from(s, sep, k) == find_from(s, sep, m),
    decreases m - k,
{
    if k < m {
        assert(!occurs_at(s, sep, k));
        if k + sep.len() > s.len() {
            lemma_find_from_none(s, sep, k + 1);
            assert(find_from(s, sep, m) is None) by {
                if find_from(s, sep, m) is Some {
                    lemma_find_from_found(s, sep, m);
                }
            }
        } else {
            lemma_find_from_advance(s, sep, k + 1, m);
        }
    }
}

/// Whether no element of `a` equals `x`.
pub open spec fn lacks<A>(a: Seq<A>, x: A) -> bool {
    forall|i: int| 0 <= i < a.len() ==> a[i] != x
}

/// A search can skip a prefix that lacks the separator's first element.
pub proof fn lemma_find_past<A>(a: Seq<A>, t: Seq<A>, sep: Seq<A>)
    requires
        sep.len() > 0,
        lacks(a, sep[0]),
    ensures
        find_from(a + t, sep, 0) == (match find_from(t, sep, 0) {
            Some(i) => Some(i + a.len()),
            None => None::<int>,
        }),
{
    let s = a + t;
    assert forall|j: int| 0 <= j < a.len() implies !occurs_at(s, sep, j) by {
        if occurs_at(s, sep, j) {
            assert(s.subrange(j, j + sep.len())[0] == s[j]);
        }
    }
    lemma_find_from_advance(s, sep, 0, a.len() as int);
    lemma_find_from_skip(s, sep, a.len() as int, 0);
    assert(s.skip(a.len() as int) =~= t);
}

/// Splitting `a + sep + r`, where `a` lacks the separator's first element.
pub proof fn lemma_split_cons<A>(a: Seq<A>, r: Seq<A>, sep: Seq<A>)
    requires
        sep.len() > 0,
        lacks(a, sep[0]),
    ensures
        split_by(a + sep + r, sep) == seq![a] + split_by(r, sep),
{
    let s = a + sep + r;
    assert(s =~= a + (sep + r));
    lemma_find_past(a, sep + r, sep);
    assert((sep + r).subrange(0, sep.len() as int) =~= sep);
    assert(s.take(a.len() as int) =~= a);
    assert(s.skip((a.len() + sep.len()) as int) =~= r);
}

/// A sequence that lacks the separator's first element is one piece.
pub proof fn lemma_split_single<A>(a: Seq<A>, sep: Seq<A>)
    requires
        sep.len() > 0,
        lacks(a, sep[0]),
    ensures
        split_by(a, sep) == seq![a],
{
    lemma_find_past(a, Seq::<A>::empty(), sep);
    assert(a + Seq::<A>::empty() =~= a);
}

/// The first occurrence, described by its properties.
pub proof fn lemma_find_from_is<A>(s: Seq<A>, sep: Seq<A>, k: int, i: int)
    requires
        0 <= k <= i,
        occurs_at(s, sep, i),
        forall|j: int| k <= j < i ==> !occurs_at(s, sep, j),
    ensures
        find_from(s, sep, k) == Some(i),
{
    lemma_find_from_advance(s, sep, k, i);
}

/// Splitting always yields at least one piece.
pub proof fn lemma_split_nonempty<A>(s: Seq<A>, sep: Seq<A>)
    ensures
        split_by(s, sep).len() >= 1,
    decreases s.len(),
{
    if sep.len() > 0 {
        match find_from(s, sep, 0) {
            Some(i) => if 0 <= i && i + sep.len() <= s.len() {
                lemma_split_nonempty(s.skip(i + sep.len()), sep);
            },
            None => {},
        }
    }
}

/// One step of a left-to-right split of `s` that has reached index `start`.
pub proof fn lemma_split_step<A>(s: Seq<A>, sep: Seq<A>, start: int, i: int)
    requires
        sep.len() > 0,
        0 <= start <= s.len(),
        find_from(s, sep, start) == Some(i),
    ensures
        start <= i,
        i + sep.len() <= s.len(),
        split_by(s.skip(start), sep) == seq![s.subrange(start, i)] + split_by(
            s.skip(i + sep.len()),
            sep,
        ),
{
    lemma_find_from_found(s, sep, start);
    lemma_find_from_skip(s, sep, start, 0);
    let t = s.skip(start);
    assert(t.take(i - start) =~= s.subrange(start, i));
    assert(t.skip(i - start + sep.len()) =~= s.skip(i + sep.len()));
}

/// The last step of a left-to-right split: no separator is left after `start`.
pub proof fn lemma_split_last<A>(s: Seq<A>, sep: Seq<A>, start: int)
    requires
        sep.len() > 0,
        0 <= start <= s.len(),
        find_from(s, sep, start) is None,
    ensures
        split_by(s.skip(start), sep) == seq![s.skip(start)],
{
    lemma_find_from_skip(s, sep, start, 0);
}

/// The first index at or after `k` where the character `c` stands in `s`.
pub fn find_char(s: &str, c: char, k: usize) -> (r: Option<usize>)
    requires
        k <= s@.len(),
    ensures
        match r {
            Some(i) => find_from(s@, seq![c], k as int) == Some(i as int),
            None => find_from(s@, seq![c], k as int) is None,
        },
{
    let n = s.unicode_len();
    let mut i = k;
    while i < n
        invariant
            k <= i <= n,
            n == s@.len(),
            find_from(s@, seq![c], k as int) == find_from(s@, seq![c], i as int),
        decreases n - i,
    {
        assert(s@.subrange(i as int, i + 1) =~= seq![s@[i as int]]);
        if s.get_char(i) == c {
            return Some(i);
        }
        assert(s@.subrange(i as int, i + 1) != seq![c]) by {
            assert(s@.subrange(i as int, i + 1)[0] == s@[i as int]);
        }
        i += 1;
    }
    None
}

/// `s` cut at every `c`.
pub fn split_char(s: &str, c: char) -> (r: Vec<String>)
    ensures
        r@.map_values(|p: String| p@) == split_by(s@, seq![c]),
{
    let ghost sep = seq![c];
    let n = s.unicode_len();
    let mut pieces: Vec<String> = Vec::new();
    let mut start: usize = 0;
    assert(s@.skip(0) =~= s@);
    assert(pieces@.map_values(|p: String| p@) + split_by(s@, sep) =~= split_by(s@, sep));
    loop
        invariant
            start <= n,
            n == s@.len(),
            sep == seq![c],
            pieces@.map_values(|p: String| p@) + split_by(s@.skip(start as int), sep)
                == split_by(s@, sep),
        decreases n - start,
    {
        match find_char(s, c, start) {
            Some(i) => {
                proof {
                    lemma_split_step(s@, sep, start as int, i as int);
                }
                let piece = s.substring_char(start, i).to_owned();
                let ghost before = pieces@.map_values(|p: String| p@);
                pieces.push(piece);
                assert(pieces@.map_values(|p: String| p@) =~= before.push(piece@));
                assert(before.push(piece@) + split_by(s@.skip(i + 1), sep) =~= before + (seq![
                    piece@,
                ] + split_by(s@.skip(i + 1), sep)));
                start = i + 1;
            },
            None => {
                proof {
                    lemma_split_last(s@, sep, start as int);
                }
                let piece = s.substring_char(start, n).to_owned();
                let ghost before = pieces@.map_values(|p: String| p@);
                assert(s@.subrange(start as int, n as int) =~= s@.skip(start as int));
                pieces.push(piece);
                assert(pieces@.map_values(|p: String| p@) =~= before.push(piece@));
                return pieces;
            },
        }
    }
}

proof fn lemma_digits_value_prefix(d: Seq<char>, i: int)
    requires
        0 <= i <= d.len(),
    ensures
        digits_value(d.take(i)) <= digits_value(d),
    decreases d.len(),
{
    if i < d.len() {
        assert(d.drop_last().take(i) =~= d.take(i));
        lemma_digits_value_prefix(d.drop_last(), i);
    } else {
        assert(d.take(i) =~= d);
    }
}

/// Reads the characters `s[from..]` as a port number.
pub fn parse_port(s: &str, from: usize) -> (r: Option<u16>)
    requires
        from <= s@.len(),
    ensures
        r == port_value(s@.skip(from as int)),
{
    let ghost d = s@.skip(from as int);
    let n = s.unicode_len();
    if from == n {
        return None;
    }
    let mut value: u32 = 0;
    let mut i = from;
    while i < n
        invariant
            from <= i <= n,
            n == s@.len(),
            d == s@.skip(from as int),
            value as nat == digits_value(d.take(i - from)),
            value <= 65535,
            forall|j: int| 0 <= j < i - from ==> is_digit(#[trigger] d[j]),
        decreases n - i,
    {
        let ch = s.get_char(i);
        if ch < '0' || ch > '9' {
            assert(!is_digit(d[i - from]));
            return None;
        }
        assert(d.take(i - from + 1).drop_last() =~= d.take(i - from));
        let next: u32 = value * 10 + (ch as u32 - '0' as u32);
        if next > 65535 {
            proof {
                lemma_digits_value_prefix(d, i - from + 1);
            }
            return None;
        }
        value = next;
        i += 1;
    }
    assert(d.take(n - from) =~= d);
    Some(value as u16)
}

/// Whether `s` begins with the characters of `word`.
pub fn starts_with_chars(s: &str, word: &Vec<char>) -> (r: bool)
    ensures
        r == (word@.len() <= s@.len() && s@.take(word@.len() as int) == word@),
{
    let n = s.unicode_len();
    if word.len() > n {
        return false;
    }
    let mut i: usize = 0;
    while i < word.len()
        invariant
            i <= word@.len() <= n,
            n == s@.len(),
            s@.take(i as int) == word@.take(i as int),
        decreases word@.len() - i,
    {
        if s.get_char(i) != word[i] {
            assert(s@.take(word@.len() as int)[i as int] != word@[i as int]);
            return false;
        }
        assert(s@.take(i + 1) =~= s@.take(i as int).push(s@[i as int]));
        assert(word@.take(i + 1) =~= word@.take(i as int).push(word@[i as int]));
        i += 1;
    }
    assert(word@.take(word@.len() as int) =~= word@);
    true
}

} // verus!
