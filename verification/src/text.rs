//! Character-level text handling: splitting on a separator, joining,
//! replacing characters, and conversions between `String` and `Vec<char>`.
use vstd::prelude::*;

verus! {

/// Whether `pat` occurs in `s` starting at position `i`.
pub open spec fn occurs_at(s: Seq<char>, pat: Seq<char>, i: int) -> bool {
    &&& 0 <= i
    &&& i + pat.len() <= s.len()
    &&& s.subrange(i, i + pat.len()) == pat
}

/// The first position at or after `from` where `pat` occurs in `s`.
pub open spec fn first_from(s: Seq<char>, pat: Seq<char>, from: int) -> Option<int>
    decreases s.len() + 1 - from,
{
    if from < 0 || from + pat.len() > s.len() {
        None
    } else if occurs_at(s, pat, from) {
        Some(from)
    } else {
        first_from(s, pat, from + 1)
    }
}

/// The first position where `pat` occurs in `s`.
pub open spec fn first_occurrence(s: Seq<char>, pat: Seq<char>) -> Option<int> {
    first_from(s, pat, 0)
}

/// The pieces of `s` between the leftmost non-overlapping occurrences of a
/// non-empty separator `sep`, in order (as `str::split` gives them).
pub open spec fn split_seq(s: Seq<char>, sep: Seq<char>) -> Seq<Seq<char>>
    decreases s.len(),
{
    if sep.len() == 0 {
        seq![s]
    } else {
        match first_occurrence(s, sep) {
            None => seq![s],
            Some(i) => {
                proof {
                    lemma_first_from_found(s, sep, 0);
                }
                seq![s.take(i)] + split_seq(s.skip(i + sep.len()), sep)
            },
        }
    }
}

/// The pieces of `parts` joined with `sep` between each two.
pub open spec fn join_seq(parts: Seq<Seq<char>>, sep: Seq<char>) -> Seq<char>
    decreases parts.len(),
{
    if parts.len() == 0 {
        Seq::empty()
    } else if parts.len() == 1 {
        parts[0]
    } else {
        parts[0] + sep + join_seq(parts.drop_first(), sep)
    }
}

/// `s` with every occurrence of the character `from` replaced by `to`.
pub open spec fn replace_char_seq(s: Seq<char>, from: char, to: Seq<char>) -> Seq<char>
    decreases s.len(),
{
    if s.len() == 0 {
        Seq::empty()
    } else {
        replace_char_seq(s.drop_last(), from, to) + (if s.last() == from {
            to
        } else {
            seq![s.last()]
        })
    }
}

/// Replacing a character by another changes exactly the characters equal to
/// it, each in its place.
pub proof fn lemma_replace_by_char(s: Seq<char>, from: char, to: char)
    ensures
        replace_char_seq(s, from, seq![to]) == s.map_values(|c: char| if c == from {
            to
        } else {
            c
        }),
    decreases s.len(),
{
    let f = |c: char| if c == from {
        to
    } else {
        c
    };
    if s.len() > 0 {
        lemma_replace_by_char(s.drop_last(), from, to);
        assert(s.map_values(f) =~= s.drop_last().map_values(f).push(f(s.last())));
    } else {
        assert(s.map_values(f) =~= Seq::<char>::empty());
    }
}

/// Replacing a character by nothing removes exactly its occurrences and keeps
/// every other character, in order.
pub proof fn lemma_replace_by_nothing(s: Seq<char>, from: char)
    ensures
        replace_char_seq(s, from, Seq::empty()) == s.filter(|c: char| c != from),
    decreases s.len(),
{
    let p = |c: char| c != from;
    reveal(Seq::filter);
    if s.len() > 0 {
        lemma_replace_by_nothing(s.drop_last(), from);
        assert(s.filter(p) == (if p(s.last()) {
            s.drop_last().filter(p).push(s.last())
        } else {
            s.drop_last().filter(p)
        }));
        assert(s.drop_last().filter(p).push(s.last()) =~= s.drop_last().filter(p) + seq![s.last()]);
        assert(s.drop_last().filter(p) + Seq::<char>::empty() =~= s.drop_last().filter(p));
    } else {
        assert(s.filter(p) =~= Seq::<char>::empty());
    }
}

/// The views of a sequence of strings.
pub open spec fn views(v: Seq<String>) -> Seq<Seq<char>> {
    v.map_values(|x: String| x@)
}

/// Where `first_from` finds something, it is an occurrence at or after `from`,
/// and nothing occurs in between.
pub proof fn lemma_first_from_found(s: Seq<char>, pat: Seq<char>, from: int)
    requires
        0 <= from,
    ensures
        first_from(s, pat, from) matches Some(i) ==> {
            &&& from <= i
            &&& occurs_at(s, pat, i)
            &&& forall|j: int| from <= j < i ==> !occurs_at(s, pat, j)
        },
        first_from(s, pat, from) is None ==> forall|j: int|
            from <= j ==> !occurs_at(s, pat, j),
    decreases s.len() + 1 - from,
{
    if from < 0 || from + pat.len() > s.len() {
    } else if occurs_at(s, pat, from) {
    } else {
        lemma_first_from_found(s, pat, from + 1);
    }
}

/// `first_from` is determined by occurrences only.
pub proof fn lemma_first_from_exact(s: Seq<char>, pat: Seq<char>, from: int, i: int)
    requires
        0 <= from <= i,
        occurs_at(s, pat, i),
        forall|j: int| from <= j < i ==> !occurs_at(s, pat, j),
    ensures
        first_from(s, pat, from) == Some(i),
    decreases i - from,
{
    if from < i {
        lemma_first_from_exact(s, pat, from + 1, i);
    }
}

/// `first_from` finds nothing when nothing occurs at or after `from`.
pub proof fn lemma_first_from_none(s: Seq<char>, pat: Seq<char>, from: int)
    requires
        0 <= from,
        forall|j: int| from <= j ==> !occurs_at(s, pat, j),
    ensures
        first_from(s, pat, from) is None,
    decreases s.len() + 1 - from,
{
    if from + pat.len() <= s.len() {
        lemma_first_from_none(s, pat, from + 1);
    }
}

/// Occurrences in a suffix are occurrences in the whole, shifted.
pub proof fn lemma_occurs_skip(s: Seq<char>, pat: Seq<char>, k: int, j: int)
    requires
        0 <= k <= s.len(),
    ensures
        occurs_at(s.skip(k), pat, j) <==> (0 <= j && occurs_at(s, pat, k + j)),
{
    if 0 <= j && j + pat.len() <= s.len() - k {
        assert(s.skip(k).subrange(j, j + pat.len()) =~= s.subrange(k + j, k + j + pat.len()));
    }
}

/// Occurrences that end inside a prefix are unaffected by what follows it.
pub proof fn lemma_occurs_prefix(a: Seq<char>, b: Seq<char>, pat: Seq<char>, j: int)
    requires
        j + pat.len() <= a.len(),
    ensures
        occurs_at(a + b, pat, j) <==> occurs_at(a, pat, j),
{
    if 0 <= j {
        assert((a + b).subrange(j, j + pat.len()) =~= a.subrange(j, j + pat.len()));
    }
}

/// `split_seq` always yields at least one piece.
pub proof fn lemma_split_nonempty(s: Seq<char>, sep: Seq<char>)
    ensures
        split_seq(s, sep).len() >= 1,
{
    if sep.len() > 0 {
        match first_occurrence(s, sep) {
            None => {},
            Some(i) => {},
        }
    }
}

/// Joining the pieces of a split with the same separator gives back the
/// text it was cut from.
pub proof fn lemma_join_split(s: Seq<char>, sep: Seq<char>)
    ensures
        join_seq(split_seq(s, sep), sep) == s,
    decreases s.len(),
{
    if sep.len() > 0 {
        match first_occurrence(s, sep) {
            None => {},
            Some(i) => {
                lemma_first_from_found(s, sep, 0);
                let rest = s.skip(i + sep.len());
                lemma_join_split(rest, sep);
                lemma_split_nonempty(rest, sep);
                let parts = split_seq(s, sep);
                assert(parts.drop_first() =~= split_seq(rest, sep));
                assert(s =~= s.take(i) + s.subrange(i, i + sep.len()) + rest);
            },
        }
    }
}

/// Joining with one more piece at the end adds the separator and the piece.
pub proof fn lemma_join_push(parts: Seq<Seq<char>>, sep: Seq<char>, x: Seq<char>)
    requires
        parts.len() >= 1,
    ensures
        join_seq(parts.push(x), sep) == join_seq(parts, sep) + sep + x,
    decreases parts.len(),
{
    let q = parts.push(x);
    if parts.len() == 1 {
        assert(q.drop_first() =~= seq![x]);
        assert(join_seq(q.drop_first(), sep) == x);
    } else {
        lemma_join_push(parts.drop_first(), sep, x);
        assert(q.drop_first() =~= parts.drop_first().push(x));
    }
}

/// Where the first occurrence of `sep` in `p + sep` is the appended one, the
/// first occurrence of `sep` in `p + sep + rest` is there as well.
pub proof fn lemma_first_occurrence_after_piece(p: Seq<char>, sep: Seq<char>, rest: Seq<char>)
    requires
        first_occurrence(p + sep, sep) == Some(p.len() as int),
    ensures
        first_occurrence(p + sep + rest, sep) == Some(p.len() as int),
{
    let ps = p + sep;
    lemma_first_from_found(ps, sep, 0);
    assert forall|j: int| 0 <= j < p.len() implies !occurs_at(ps + rest, sep, j) by {
        lemma_occurs_prefix(ps, rest, sep, j);
    }
    lemma_occurs_prefix(ps, rest, sep, p.len() as int);
    lemma_first_from_exact(ps + rest, sep, 0, p.len() as int);
}

/// Whether a piece can stand between separators without being cut:
/// the first occurrence of `sep` in `p + sep` is the appended one.
pub open spec fn piece_keeps(p: Seq<char>, sep: Seq<char>) -> bool {
    first_occurrence(p + sep, sep) == Some(p.len() as int)
}

/// Splitting a join gives back the pieces, where no piece is cut by the
/// separator.
pub proof fn lemma_split_join(parts: Seq<Seq<char>>, sep: Seq<char>)
    requires
        parts.len() >= 1,
        sep.len() > 0,
        forall|k: int| 0 <= k < parts.len() - 1 ==> piece_keeps(#[trigger] parts[k], sep),
        first_occurrence(parts.last(), sep) is None,
    ensures
        split_seq(join_seq(parts, sep), sep) == parts,
    decreases parts.len(),
{
    if parts.len() == 1 {
        assert(split_seq(parts[0], sep) =~= parts);
    } else {
        let p = parts[0];
        let rest = parts.drop_first();
        let j = join_seq(rest, sep);
        assert(piece_keeps(parts[0], sep));
        lemma_first_occurrence_after_piece(p, sep, j);
        assert(join_seq(parts, sep) == p + sep + j);
        let whole = p + sep + j;
        assert(whole.take(p.len() as int) =~= p);
        assert(whole.skip(p.len() + sep.len() as int) =~= j);
        assert forall|k: int| 0 <= k < rest.len() - 1 implies piece_keeps(#[trigger] rest[k], sep) by {
            assert(rest[k] == parts[k + 1]);
        }
        lemma_split_join(rest, sep);
        assert(split_seq(whole, sep) =~= parts);
    }
}

/// For a separator of two different characters, a piece that does not hold
/// the separator is never cut.
pub proof fn lemma_piece_keeps_pair(p: Seq<char>, sep: Seq<char>)
    requires
        sep.len() == 2,
        sep[0] != sep[1],
        first_occurrence(p, sep) is None,
    ensures
        piece_keeps(p, sep),
{
    let ps = p + sep;
    lemma_first_from_found(p, sep, 0);
    assert forall|j: int| 0 <= j < p.len() implies !occurs_at(ps, sep, j) by {
        if j + 2 <= p.len() {
            lemma_occurs_prefix(p, sep, sep, j);
        } else {
            assert(ps[j + 1] == sep[0]);
            if occurs_at(ps, sep, j) {
                assert(ps.subrange(j, j + 2)[1] == sep[1]);
            }
        }
    }
    assert(ps.subrange(p.len() as int, p.len() as int + 2) =~= sep);
    lemma_first_from_exact(ps, sep, 0, p.len() as int);
}

/// A copy of the characters of `s`.
pub fn chars_of(s: &str) -> (r: Vec<char>)
    ensures
        r@ == s@,
{
    let mut r: Vec<char> = Vec::new();
    for c in it: s.chars()
        invariant
            it.seq() == s@,
            r@ == s@.take(it.index() as int),
    {
        r.push(c);
    }
    r
}

/// Appends one character to a string (`String::push`).
#[verifier::external_body]
fn push_char(s: &mut String, c: char)
    ensures
        final(s)@ == old(s)@.push(c),
{
    s.push(c);
}

/// `n` copies of the character `c`.
pub open spec fn repeat_seq(c: char, n: nat) -> Seq<char> {
    Seq::new(n, |i: int| c)
}

/// A string of `n` copies of `c` (`str::repeat` on a one-character string).
pub fn repeat_char(c: char, n: usize) -> (r: String)
    ensures
        r@ == repeat_seq(c, n as nat),
{
    let mut r = String::new();
    let mut i: usize = 0;
    while i < n
        invariant
            i <= n,
            r@ == repeat_seq(c, i as nat),
        decreases n - i,
    {
        push_char(&mut r, c);
        i = i + 1;
        assert(r@ =~= repeat_seq(c, i as nat));
    }
    r
}

/// A copy of the characters `cs[from..to]`.
pub fn chars_range(cs: &Vec<char>, from: usize, to: usize) -> (r: Vec<char>)
    requires
        from <= to <= cs.len(),
    ensures
        r@ == cs@.subrange(from as int, to as int),
{
    let mut r: Vec<char> = Vec::new();
    let mut i = from;
    while i < to
        invariant
            from <= i <= to <= cs.len(),
            r@ == cs@.subrange(from as int, i as int),
        decreases to - i,
    {
        r.push(cs[i]);
        i = i + 1;
        assert(r@ =~= cs@.subrange(from as int, i as int));
    }
    r
}

/// A string made of the characters `cs[from..to]`.
pub fn string_of_range(cs: &Vec<char>, from: usize, to: usize) -> (r: String)
    requires
        from <= to <= cs.len(),
    ensures
        r@ == cs@.subrange(from as int, to as int),
{
    let mut r = String::new();
    let mut i = from;
    while i < to
        invariant
            from <= i <= to <= cs.len(),
            r@ == cs@.subrange(from as int, i as int),
        decreases to - i,
    {
        push_char(&mut r, cs[i]);
        i = i + 1;
        assert(r@ =~= cs@.subrange(from as int, i as int));
    }
    r
}

/// A string made of the characters of `cs`.
pub fn string_of(cs: &Vec<char>) -> (r: String)
    ensures
        r@ == cs@,
{
    let r = string_of_range(cs, 0, cs.len());
    assert(cs@.subrange(0, cs@.len() as int) =~= cs@);
    r
}

/// `a` followed by `b`, as a new string.
pub fn concat(a: &str, b: &str) -> (r: String)
    ensures
        r@ == a@ + b@,
{
    let mut r = String::from_str(a);
    r.append(b);
    r
}

/// Whether `pat` occurs in `s` at position `i`.
pub fn occurs_at_exec(s: &Vec<char>, pat: &Vec<char>, i: usize) -> (r: bool)
    requires
        i + pat.len() <= s.len(),
    ensures
        r == occurs_at(s@, pat@, i as int),
{
    let mut k: usize = 0;
    while k < pat.len()
        invariant
            i + pat.len() <= s.len(),
            k <= pat.len(),
            forall|m: int| 0 <= m < k ==> s@[i + m] == pat@[m],
        decreases pat.len() - k,
    {
        if s[i + k] != pat[k] {
            assert(s@.subrange(i as int, i + pat.len())[k as int] != pat@[k as int]);
            return false;
        }
        k = k + 1;
    }
    assert(s@.subrange(i as int, i + pat.len()) =~= pat@);
    true
}

/// The pieces of `s` between the occurrences of the separator `sep`, in order,
/// as `str::split` gives them.
pub fn split_chars(s: &Vec<char>, sep: &Vec<char>) -> (parts: Vec<String>)
    requires
        sep.len() > 0,
    ensures
        views(parts@) == split_seq(s@, sep@),
{
    let mut parts: Vec<String> = Vec::new();
    let mut start: usize = 0;
    let mut i: usize = 0;
    let ghost whole = s@;
    proof {
        assert(s@.skip(0) =~= s@);
    }
    while sep.len() <= s.len() && i <= s.len() - sep.len()
        invariant
            sep.len() > 0,
            start <= i <= s.len(),
            whole == s@,
            split_seq(s@, sep@) == views(parts@) + split_seq(s@.skip(start as int), sep@),
            forall|j: int| start <= j < i ==> !occurs_at(s@, sep@, j),
        decreases s.len() - i,
    {
        if occurs_at_exec(s, sep, i) {
            let piece = string_of_range(s, start, i);
            proof {
                let t = s@.skip(start as int);
                assert forall|j: int| 0 <= j < i - start implies !occurs_at(t, sep@, j) by {
                    lemma_occurs_skip(s@, sep@, start as int, j);
                }
                lemma_occurs_skip(s@, sep@, start as int, i - start);
                lemma_first_from_exact(t, sep@, 0, i - start);
                assert(t.take(i - start) =~= s@.subrange(start as int, i as int));
                assert(t.skip(i - start + sep.len()) =~= s@.skip(i + sep.len()));
                assert(split_seq(t, sep@) == seq![t.take(i - start)] + split_seq(
                    t.skip(i - start + sep.len()),
                    sep@,
                ));
            }
            let ghost before = parts@;
            parts.push(piece);
            proof {
                assert(views(parts@) =~= views(before).push(piece@));
            }
            start = i + sep.len();
            i = start;
        } else {
            i = i + 1;
        }
    }
    let piece = string_of_range(s, start, s.len());
    proof {
        let t = s@.skip(start as int);
        assert forall|j: int| 0 <= j implies !occurs_at(t, sep@, j) by {
            lemma_occurs_skip(s@, sep@, start as int, j);
        }
        lemma_first_from_none(t, sep@, 0);
        assert(t =~= s@.subrange(start as int, s.len() as int));
    }
    let ghost before = parts@;
    parts.push(piece);
    proof {
        assert(views(parts@) =~= views(before).push(piece@));
        assert(split_seq(s@.skip(start as int), sep@) =~= seq![piece@]);
    }
    parts
}

/// The pieces of `s` between the occurrences of `sep`, in order, as
/// `str::split` gives them.
pub fn split_str(s: &str, sep: &str) -> (parts: Vec<String>)
    requires
        sep@.len() > 0,
    ensures
        views(parts@) == split_seq(s@, sep@),
{
    let cs = chars_of(s);
    let sp = chars_of(sep);
    split_chars(&cs, &sp)
}

/// The strings of `parts` joined with `sep` between each two.
pub fn join_strings(parts: &Vec<String>, sep: &str) -> (r: String)
    ensures
        r@ == join_seq(views(parts@), sep@),
{
    if parts.len() == 0 {
        return String::new();
    }
    let n = parts.len();
    let mut r = parts[n - 1].clone();
    let mut i = n - 1;
    while i > 0
        invariant
            n == parts.len(),
            0 <= i < n,
            r@ == join_seq(views(parts@).skip(i as int), sep@),
        decreases i,
    {
        i = i - 1;
        let mut next = parts[i].clone();
        next.append(sep);
        next.append(r.as_str());
        proof {
            let tail = views(parts@).skip(i as int);
            assert(tail.drop_first() =~= views(parts@).skip(i + 1));
            assert(tail[0] == parts@[i as int]@);
        }
        r = next;
    }
    assert(views(parts@).skip(0) =~= views(parts@));
    r
}

/// `s` with every occurrence of the character `from` replaced by `to`
/// (`str::replace` with a one-character pattern).
pub fn replace_char(s: &str, from: char, to: &str) -> (r: String)
    ensures
        r@ == replace_char_seq(s@, from, to@),
{
    let cs = chars_of(s);
    let mut r = String::new();
    let mut i: usize = 0;
    while i < cs.len()
        invariant
            cs@ == s@,
            i <= cs.len(),
            r@ == replace_char_seq(s@.take(i as int), from, to@),
        decreases cs.len() - i,
    {
        let c = cs[i];
        if c == from {
            r.append(to);
        } else {
            push_char(&mut r, c);
        }
        proof {
            assert(s@.take(i + 1).drop_last() =~= s@.take(i as int));
        }
        i = i + 1;
    }
    assert(s@.take(cs.len() as int) =~= s@);
    r
}

} // verus!
