//! Splitting text into pieces and lines, and searching it.
use vstd::prelude::*;

verus! {

/// The pieces of `s` closed by a separator `c`, and the piece still open
/// after the last one.
pub open spec fn split_fold(s: Seq<char>, c: char) -> (Seq<Seq<char>>, Seq<char>)
    decreases s.len(),
{
    if s.len() == 0 {
        (Seq::empty(), Seq::empty())
    } else {
        let (done, cur) = split_fold(s.drop_last(), c);
        if s.last() == c {
            (done.push(cur), Seq::empty())
        } else {
            (done, cur.push(s.last()))
        }
    }
}

/// The pieces of `s` between the separators `c`, as `str::split` gives
/// them: one more than there are separators.
pub open spec fn split_on(s: Seq<char>, c: char) -> Seq<Seq<char>> {
    split_fold(s, c).0.push(split_fold(s, c).1)
}

/// A line without the carriage return that ends it, if any.
pub open spec fn strip_cr(l: Seq<char>) -> Seq<char> {
    if l.len() > 0 && l.last() == '\r' {
        l.drop_last()
    } else {
        l
    }
}

/// The lines of `s`, as `str::lines` gives them: split at each `\n`, a
/// `\r` just before it dropped, and no empty line after a final `\n`.
pub open spec fn text_lines(s: Seq<char>) -> Seq<Seq<char>> {
    let ls = split_fold(s, '\n').0.map_values(|l: Seq<char>| strip_cr(l));
    if split_fold(s, '\n').1.len() > 0 {
        ls.push(split_fold(s, '\n').1)
    } else {
        ls
    }
}

/// The character lists of a list of vectors.
pub open spec fn vecs_view(v: Seq<Vec<char>>) -> Seq<Seq<char>> {
    v.map_values(|x: Vec<char>| x@)
}

/// The pieces of `s` between the separators `c`.
pub fn split_chars(s: &[char], c: char) -> (r: Vec<Vec<char>>)
    ensures
        vecs_view(r@) == split_on(s@, c),
{
    let mut done: Vec<Vec<char>> = Vec::new();
    let mut cur: Vec<char> = Vec::new();
    let mut i: usize = 0;
    proof {
        assert(s@.take(0) =~= Seq::<char>::empty());
        assert(vecs_view(done@) =~= Seq::<Seq<char>>::empty());
    }
    while i < s.len()
        invariant
            i <= s@.len(),
            (vecs_view(done@), cur@) == split_fold(s@.take(i as int), c),
        decreases s@.len() - i,
    {
        let ch = s[i];
        proof {
            let q = s@.take(i as int + 1);
            assert(q.drop_last() =~= s@.take(i as int));
            assert(q.last() == ch);
        }
        if ch == c {
            let ghost d0 = done@;
            done.push(cur);
            cur = Vec::new();
            proof {
                assert(vecs_view(done@) =~= vecs_view(d0).push(done@.last()@));
            }
        } else {
            cur.push(ch);
        }
        i = i + 1;
    }
    proof {
        assert(s@.take(s@.len() as int) =~= s@);
    }
    let ghost d1 = done@;
    done.push(cur);
    proof {
        assert(vecs_view(done@) =~= vecs_view(d1).push(done@.last()@));
    }
    done
}

/// The lines of `s`.
pub fn lines_of(s: &[char]) -> (r: Vec<Vec<char>>)
    ensures
        vecs_view(r@) == text_lines(s@),
{
    let mut done: Vec<Vec<char>> = Vec::new();
    let mut cur: Vec<char> = Vec::new();
    let mut i: usize = 0;
    proof {
        assert(s@.take(0) =~= Seq::<char>::empty());
        assert(vecs_view(done@) =~= Seq::<Seq<char>>::empty());
    }
    while i < s.len()
        invariant
            i <= s@.len(),
            vecs_view(done@) == split_fold(s@.take(i as int), '\n').0.map_values(|l: Seq<char>| strip_cr(l)),
            cur@ == split_fold(s@.take(i as int), '\n').1,
        decreases s@.len() - i,
    {
        let ch = s[i];
        let ghost before = split_fold(s@.take(i as int), '\n');
        proof {
            let q = s@.take(i as int + 1);
            assert(q.drop_last() =~= s@.take(i as int));
            assert(q.last() == ch);
        }
        if ch == '\n' {
            if cur.len() > 0 && cur[cur.len() - 1] == '\r' {
                cur.pop();
            }
            let ghost d0 = done@;
            done.push(cur);
            cur = Vec::new();
            proof {
                assert(done@.last()@ == strip_cr(before.1));
                assert(vecs_view(done@) =~= vecs_view(d0).push(done@.last()@));
                assert(before.0.push(before.1).map_values(|l: Seq<char>| strip_cr(l)) =~= before.0.map_values(
                    |l: Seq<char>| strip_cr(l),
                ).push(strip_cr(before.1)));
            }
        } else {
            cur.push(ch);
        }
        i = i + 1;
    }
    proof {
        assert(s@.take(s@.len() as int) =~= s@);
    }
    if cur.len() > 0 {
        let ghost d1 = done@;
        done.push(cur);
        proof {
            assert(vecs_view(done@) =~= vecs_view(d1).push(done@.last()@));
        }
    }
    done
}

/// Whether two character lists are equal.
pub fn chars_eq(a: &[char], b: &[char]) -> (r: bool)
    ensures
        r == (a@ == b@),
{
    if a.len() != b.len() {
        return false;
    }
    let mut i: usize = 0;
    while i < a.len()
        invariant
            0 <= i <= a@.len(),
            a@.len() == b@.len(),
            forall|j: int| 0 <= j < i ==> a@[j] == b@[j],
        decreases a@.len() - i,
    {
        if a[i] != b[i] {
            return false;
        }
        i = i + 1;
    }
    proof {
        assert(a@ =~= b@);
    }
    true
}

/// `needle` occurs in `hay`.
pub open spec fn has_substring(hay: Seq<char>, needle: Seq<char>) -> bool {
    exists|i: int| 0 <= i <= hay.len() - needle.len() && #[trigger] hay.subrange(i, i + needle.len()) == needle
}

/// Whether `needle` occurs in `hay`.
pub fn contains_text(hay: &[char], needle: &[char]) -> (r: bool)
    ensures
        r == has_substring(hay@, needle@),
{
    if needle.len() > hay.len() {
        return false;
    }
    let mut i: usize = 0;
    while i <= hay.len() - needle.len()
        invariant
            needle@.len() <= hay@.len(),
            i <= hay@.len() - needle@.len() + 1,
            forall|k: int| 0 <= k < i ==> #[trigger] hay@.subrange(k, k + needle@.len()) != needle@,
        decreases hay@.len() - needle@.len() + 1 - i,
    {
        let mut j: usize = 0;
        let mut same = true;
        while j < needle.len()
            invariant
                i + needle@.len() <= hay@.len(),
                hay@.len() == hay.len(),
                j <= needle@.len(),
                same == (forall|m: int| 0 <= m < j ==> hay@[i + m] == needle@[m]),
            decreases needle@.len() - j,
        {
            if hay[i + j] != needle[j] {
                same = false;
            }
            j = j + 1;
        }
        if same {
            proof {
                assert(hay@.subrange(i as int, i + needle@.len()) =~= needle@);
            }
            return true;
        }
        proof {
            let m = choose|m: int| 0 <= m < needle@.len() && hay@[i + m] != needle@[m];
            assert(hay@.subrange(i as int, i + needle@.len())[m] != needle@[m]);
        }
        i = i + 1;
    }
    false
}

/// The strings of a list of character lists.
pub open spec fn strings_view(v: Seq<String>) -> Seq<Seq<char>> {
    v.map_values(|x: String| x@)
}

/// A string of the given characters.
pub fn string_from_chars(chars: &[char]) -> (r: String)
    ensures
        r@ == chars@,
{
    let mut s = String::new();
    let mut i: usize = 0;
    while i < chars.len()
        invariant
            i <= chars@.len(),
            s@ == chars@.take(i as int),
        decreases chars@.len() - i,
    {
        s.push(chars[i]);
        proof {
            assert(s@ =~= chars@.take(i as int + 1));
        }
        i = i + 1;
    }
    proof {
        assert(chars@.take(chars@.len() as int) =~= chars@);
    }
    s
}

/// Text with no separator in it only extends the open piece.
pub proof fn lemma_split_plain(p: Seq<char>, s: Seq<char>, c: char)
    requires
        !s.contains(c),
    ensures
        split_fold(p + s, c) == (split_fold(p, c).0, split_fold(p, c).1 + s),
    decreases s.len(),
{
    if s.len() == 0 {
        assert(p + s =~= p);
        assert(split_fold(p, c).1 + s =~= split_fold(p, c).1);
    } else {
        let s0 = s.drop_last();
        assert(!s0.contains(c)) by {
            if s0.contains(c) {
                let i = choose|i: int| 0 <= i < s0.len() && s0[i] == c;
                assert(s[i] == c);
            }
        }
        lemma_split_plain(p, s0, c);
        assert((p + s).drop_last() =~= p + s0);
        assert((p + s).last() == s.last());
        assert(s[s.len() - 1] == s.last());
        assert((split_fold(p, c).1 + s0).push(s.last()) =~= split_fold(p, c).1 + s);
    }
}

/// A separator closes the open piece.
pub proof fn lemma_split_sep(p: Seq<char>, c: char)
    ensures
        split_fold(p + seq![c], c) == (split_fold(p, c).0.push(split_fold(p, c).1), Seq::<char>::empty()),
{
    assert((p + seq![c]).drop_last() =~= p);
    assert((p + seq![c]).last() == c);
}

/// `l` holds one of the `needles`.
pub open spec fn has_any(l: Seq<char>, needles: Seq<Seq<char>>) -> bool {
    exists|i: int| 0 <= i < needles.len() && has_substring(l, #[trigger] needles[i])
}

/// The lines that hold one of the `needles`, in order.
pub open spec fn lines_with_any(lines: Seq<Seq<char>>, needles: Seq<Seq<char>>) -> Seq<Seq<char>>
    decreases lines.len(),
{
    if lines.len() == 0 {
        Seq::empty()
    } else if has_any(lines.last(), needles) {
        lines_with_any(lines.drop_last(), needles).push(lines.last())
    } else {
        lines_with_any(lines.drop_last(), needles)
    }
}

/// Whether `line` holds one of the `needles`.
pub fn contains_any(line: &[char], needles: &Vec<Vec<char>>) -> (r: bool)
    ensures
        r == has_any(line@, vecs_view(needles@)),
{
    let ghost ns = vecs_view(needles@);
    let mut i: usize = 0;
    while i < needles.len()
        invariant
            ns == vecs_view(needles@),
            i <= needles@.len(),
            forall|k: int| 0 <= k < i ==> !has_substring(line@, #[trigger] ns[k]),
        decreases needles@.len() - i,
    {
        proof {
            assert(ns[i as int] == needles@[i as int]@);
        }
        if contains_text(line, needles[i].as_slice()) {
            return true;
        }
        i = i + 1;
    }
    false
}

/// The lines that hold one of the `needles`, as strings, appended to `out`.
pub fn push_lines_with_any(lines: &Vec<Vec<char>>, needles: &Vec<Vec<char>>, out: &mut Vec<String>)
    ensures
        strings_view(final(out)@) == strings_view(old(out)@) + lines_with_any(vecs_view(lines@), vecs_view(needles@)),
{
    let ghost ls = vecs_view(lines@);
    let ghost ns = vecs_view(needles@);
    let ghost start = strings_view(out@);
    let mut i: usize = 0;
    proof {
        assert(ls.take(0) =~= Seq::<Seq<char>>::empty());
        assert(start + Seq::<Seq<char>>::empty() =~= start);
    }
    while i < lines.len()
        invariant
            ls == vecs_view(lines@),
            ns == vecs_view(needles@),
            i <= lines@.len(),
            strings_view(out@) == start + lines_with_any(ls.take(i as int), ns),
        decreases lines@.len() - i,
    {
        let line = &lines[i];
        proof {
            let q = ls.take(i as int + 1);
            assert(q.drop_last() =~= ls.take(i as int));
            assert(q.last() == line@);
        }
        if contains_any(line.as_slice(), needles) {
            let ghost o0 = out@;
            out.push(string_from_chars(line.as_slice()));
            proof {
                assert(strings_view(out@) =~= strings_view(o0).push(line@));
            }
        }
        i = i + 1;
    }
    proof {
        assert(ls.take(lines@.len() as int) =~= ls);
    }
}

} // verus!
