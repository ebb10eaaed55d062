use vstd::prelude::*;

verus! {

/// ASCII white space: space, tab, line feed, vertical tab, form feed, carriage return.
pub open spec fn is_space(b: u8) -> bool {
    b == 32 || (9 <= b <= 13)
}

pub open spec fn trim_start(s: Seq<u8>) -> Seq<u8>
    decreases s.len(),
{
    if s.len() > 0 && is_space(s[0]) { trim_start(s.drop_first()) } else { s }
}

pub open spec fn trim_end(s: Seq<u8>) -> Seq<u8>
    decreases s.len(),
{
    if s.len() > 0 && is_space(s.last()) { trim_end(s.drop_last()) } else { s }
}

/// The pieces of `s` between single spaces: `n` spaces give `n + 1` pieces,
/// some of them possibly empty.
pub open spec fn split_spaces(s: Seq<u8>) -> Seq<Seq<u8>>
    decreases s.len(),
{
    if s.len() == 0 {
        seq![Seq::empty()]
    } else {
        let t = split_spaces(s.drop_last());
        if s.last() == 32 {
            t.push(Seq::empty())
        } else {
            t.update(t.len() - 1, t.last().push(s.last()))
        }
    }
}

/// The words of a line: white space trimmed at both ends, then split at each space.
pub open spec fn words_of(s: Seq<u8>) -> Seq<Seq<u8>> {
    split_spaces(trim_end(trim_start(s)))
}

pub proof fn lemma_split_nonempty(s: Seq<u8>)
    ensures
        split_spaces(s).len() >= 1,
    decreases s.len(),
{
    if s.len() > 0 {
        lemma_split_nonempty(s.drop_last());
    }
}

/// The contents of each vector of `m`.
pub open spec fn views<T>(m: Seq<Vec<T>>) -> Seq<Seq<T>> {
    Seq::new(m.len(), |i: int| m[i]@)
}

/// Whether `tok` and `word` hold the same bytes.
pub fn same_bytes(tok: &[u8], word: &[u8]) -> (r: bool)
    ensures
        r == (tok@ == word@),
{
    if tok.len() != word.len() {
        return false;
    }
    let mut i: usize = 0;
    while i < tok.len()
        invariant
            tok@.len() == word@.len(),
            i <= tok@.len(),
            tok@.subrange(0, i as int) == word@.subrange(0, i as int),
        decreases tok@.len() - i,
    {
        if tok[i] != word[i] {
            assert(tok@[i as int] != word@[i as int]);
            return false;
        }
        i = i + 1;
        assert(tok@.subrange(0, i as int) =~= word@.subrange(0, i as int));
    }
    assert(tok@ =~= tok@.subrange(0, tok@.len() as int));
    assert(word@ =~= word@.subrange(0, word@.len() as int));
    true
}

/// The words of `s` (see [`words_of`]).
pub fn split_words(s: &[u8]) -> (r: Vec<Vec<u8>>)
    ensures
        views(r@) == words_of(s@),
{
    let n = s.len();
    let mut start: usize = 0;
    assert(s@.subrange(0, n as int) == s@);
    while start < n && (s[start] == 32 || (9 <= s[start] && s[start] <= 13))
        invariant
            start <= n == s@.len(),
            trim_start(s@) == trim_start(s@.subrange(start as int, n as int)),
        decreases n - start,
    {
        assert(s@.subrange(start as int, n as int).drop_first() == s@.subrange(start as int + 1, n as int));
        start = start + 1;
    }
    let ghost front = s@.subrange(start as int, n as int);
    assert(trim_start(s@) == front);
    let mut end: usize = n;
    while end > start && (s[end - 1] == 32 || (9 <= s[end - 1] && s[end - 1] <= 13))
        invariant
            start <= end <= n == s@.len(),
            front == s@.subrange(start as int, n as int),
            trim_end(front) == trim_end(s@.subrange(start as int, end as int)),
        decreases end - start,
    {
        assert(s@.subrange(start as int, end as int).drop_last() == s@.subrange(start as int, end as int - 1));
        end = end - 1;
    }
    let ghost body = s@.subrange(start as int, end as int);
    assert(trim_end(front) == body);
    let mut done: Vec<Vec<u8>> = Vec::new();
    let mut cur: Vec<u8> = Vec::new();
    let mut i: usize = start;
    assert(body.subrange(0, 0) =~= Seq::<u8>::empty());
    while i < end
        invariant
            start <= i <= end <= n == s@.len(),
            body == s@.subrange(start as int, end as int),
            split_spaces(body.subrange(0, i - start)) == views(done@).push(cur@),
        decreases end - i,
    {
        let ghost prev = body.subrange(0, i - start);
        assert(body.subrange(0, i - start + 1).drop_last() == prev);
        assert(body.subrange(0, i - start + 1).last() == s@[i as int]);
        let b = s[i];
        if b == 32 {
            let ghost old_done = done@;
            let ghost old_cur = cur@;
            done.push(cur);
            cur = Vec::new();
            assert(views(done@) =~= views(old_done).push(old_cur));
            assert(views(done@).push(cur@) =~= split_spaces(prev).push(Seq::empty()));
        } else {
            cur.push(b);
            assert(views(done@).push(cur@) =~= split_spaces(prev).update(split_spaces(prev).len() - 1, split_spaces(prev).last().push(b)));
        }
        i = i + 1;
    }
    assert(body.subrange(0, end - start) == body);
    let ghost old_done = done@;
    done.push(cur);
    assert(views(done@) =~= views(old_done).push(cur@));
    done
}

} // verus!
