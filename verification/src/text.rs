//! Text handling shared by the nodes: whitespace, word splitting, line
//! splitting and substring search, each stated over `Seq<char>`.

use vstd::prelude::*;

verus! {

/// Unicode `White_Space`: the characters at which a line is split into words.
pub open spec fn is_ws(c: char) -> bool {
    let n = c as u32;
    ||| 0x09 <= n <= 0x0d
    ||| n == 0x20
    ||| n == 0x85
    ||| n == 0xa0
    ||| n == 0x1680
    ||| 0x2000 <= n <= 0x200a
    ||| n == 0x2028
    ||| n == 0x2029
    ||| n == 0x202f
    ||| n == 0x205f
    ||| n == 0x3000
}

/// `cur` as a finished word, if it is not empty.
pub open spec fn flush(cur: Seq<char>) -> Seq<Seq<char>> {
    if cur.len() == 0 {
        Seq::empty()
    } else {
        seq![cur]
    }
}

/// The words of `s`, where `cur` is a word begun before `s`.
pub open spec fn words_from(s: Seq<char>, cur: Seq<char>) -> Seq<Seq<char>>
    decreases s.len(),
{
    if s.len() == 0 {
        flush(cur)
    } else if is_ws(s[0]) {
        flush(cur) + words_from(s.drop_first(), Seq::empty())
    } else {
        words_from(s.drop_first(), cur.push(s[0]))
    }
}

/// The maximal runs of non-whitespace characters of `s`, in order.
pub open spec fn words(s: Seq<char>) -> Seq<Seq<char>> {
    words_from(s, Seq::empty())
}

/// A line that ended in a newline, without a carriage return before it.
pub open spec fn strip_cr(l: Seq<char>) -> Seq<char> {
    if l.len() > 0 && l.last() == '\r' {
        l.drop_last()
    } else {
        l
    }
}

/// The lines of `s`, where `cur` is a line begun before `s`.
pub open spec fn lines_from(s: Seq<char>, cur: Seq<char>) -> Seq<Seq<char>>
    decreases s.len(),
{
    if s.len() == 0 {
        flush(cur)
    } else if s[0] == '\n' {
        seq![strip_cr(cur)] + lines_from(s.drop_first(), Seq::empty())
    } else {
        lines_from(s.drop_first(), cur.push(s[0]))
    }
}

/// The lines of `s` as a buffered reader yields them: split at each `'\n'`,
/// with a `"\r\n"` ending removed, and no empty line after a final newline.
pub open spec fn lines(s: Seq<char>) -> Seq<Seq<char>> {
    lines_from(s, Seq::empty())
}

/// A non-empty run of non-whitespace characters.
pub open spec fn is_word(w: Seq<char>) -> bool {
    w.len() > 0 && forall|i: int| 0 <= i < w.len() ==> !is_ws(#[trigger] w[i])
}

/// Reading on through a run of non-whitespace characters extends the
/// current word by that run.
pub(crate) proof fn lemma_words_through(w: Seq<char>, rest: Seq<char>, cur: Seq<char>)
    requires
        forall|i: int| 0 <= i < w.len() ==> !is_ws(#[trigger] w[i]),
    ensures
        words_from(w + rest, cur) == words_from(rest, cur + w),
    decreases w.len(),
{
    if w.len() == 0 {
        assert(w + rest =~= rest);
        assert(cur + w =~= cur);
    } else {
        assert((w + rest)[0] == w[0]);
        assert((w + rest).drop_first() =~= w.drop_first() + rest);
        assert(!is_ws(w[0]));
        lemma_words_through(w.drop_first(), rest, cur.push(w[0]));
        assert(cur.push(w[0]) + w.drop_first() =~= cur + w);
    }
}

/// A line that is one word, with any whitespace around it, is read back as
/// that word alone.
pub proof fn lemma_words_of_word(pre: Seq<char>, w: Seq<char>, post: Seq<char>)
    requires
        is_word(w),
        forall|i: int| 0 <= i < pre.len() ==> is_ws(#[trigger] pre[i]),
        forall|i: int| 0 <= i < post.len() ==> is_ws(#[trigger] post[i]),
    ensures
        words(pre + w + post) == seq![w],
    decreases pre.len() + post.len(),
{
    if pre.len() > 0 {
        assert((pre + w + post)[0] == pre[0]);
        assert((pre + w + post).drop_first() =~= pre.drop_first() + w + post);
        assert forall|i: int| 0 <= i < pre.drop_first().len() implies is_ws(
            #[trigger] pre.drop_first()[i],
        ) by {
            assert(pre.drop_first()[i] == pre[i + 1]);
        }
        lemma_words_of_word(pre.drop_first(), w, post);
        assert(flush(Seq::empty()) =~= Seq::<Seq<char>>::empty());
        assert(words(pre + w + post) =~= Seq::<Seq<char>>::empty() + seq![w]);
    } else {
        assert(pre + w + post =~= w + post);
        lemma_words_through(w, post, Seq::empty());
        assert(Seq::<char>::empty() + w =~= w);
        lemma_trailing_ws(post, w);
    }
}

/// Whitespace after a word finishes it and adds nothing more.
proof fn lemma_trailing_ws(post: Seq<char>, cur: Seq<char>)
    requires
        cur.len() > 0,
        forall|i: int| 0 <= i < post.len() ==> is_ws(#[trigger] post[i]),
    ensures
        words_from(post, cur) == seq![cur],
    decreases post.len(),
{
    if post.len() > 0 {
        assert(is_ws(post[0]));
        assert forall|i: int| 0 <= i < post.drop_first().len() implies is_ws(
            #[trigger] post.drop_first()[i],
        ) by {
            assert(post.drop_first()[i] == post[i + 1]);
        }
        lemma_only_ws(post.drop_first());
        assert(seq![cur] + Seq::<Seq<char>>::empty() =~= seq![cur]);
    }
}

/// A run of whitespace holds no word.
proof fn lemma_only_ws(s: Seq<char>)
    requires
        forall|i: int| 0 <= i < s.len() ==> is_ws(#[trigger] s[i]),
    ensures
        words_from(s, Seq::empty()) == Seq::<Seq<char>>::empty(),
    decreases s.len(),
{
    if s.len() > 0 {
        assert(is_ws(s[0]));
        assert forall|i: int| 0 <= i < s.drop_first().len() implies is_ws(
            #[trigger] s.drop_first()[i],
        ) by {
            assert(s.drop_first()[i] == s[i + 1]);
        }
        lemma_only_ws(s.drop_first());
        assert(flush(Seq::empty()) + Seq::<Seq<char>>::empty() =~= Seq::<Seq<char>>::empty());
    }
}

/// Two words with one space between them are read back as those two words.
pub proof fn lemma_words_of_pair(k: Seq<char>, v: Seq<char>)
    requires
        is_word(k),
        is_word(v),
    ensures
        words(k + seq![' '] + v) == seq![k, v],
{
    let s = k + seq![' '] + v;
    assert(s =~= k + (seq![' '] + v));
    lemma_words_through(k, seq![' '] + v, Seq::empty());
    assert(Seq::<char>::empty() + k =~= k);
    let t = seq![' '] + v;
    assert(t[0] == ' ');
    assert(is_ws(' '));
    assert(t.drop_first() =~= v);
    assert(v =~= v + Seq::<char>::empty());
    lemma_words_through(v, Seq::empty(), Seq::empty());
    assert(Seq::<char>::empty() + v =~= v);
    assert(words_from(t, k) =~= seq![k] + seq![v]);
    assert(seq![k] + seq![v] =~= seq![k, v]);
}

/// Reading on through a line ended by a newline finishes the current line.
pub(crate) proof fn lemma_lines_through(l: Seq<char>, rest: Seq<char>, cur: Seq<char>)
    requires
        forall|i: int| 0 <= i < l.len() ==> #[trigger] l[i] != '\n',
    ensures
        lines_from(l + seq!['\n'] + rest, cur) == seq![strip_cr(cur + l)] + lines_from(
            rest,
            Seq::empty(),
        ),
    decreases l.len(),
{
    let s = l + seq!['\n'] + rest;
    if l.len() == 0 {
        assert(s[0] == '\n');
        assert(s.drop_first() =~= rest);
        assert(cur + l =~= cur);
    } else {
        assert(s[0] == l[0]);
        assert(s.drop_first() =~= l.drop_first() + seq!['\n'] + rest);
        lemma_lines_through(l.drop_first(), rest, cur.push(l[0]));
        assert(cur.push(l[0]) + l.drop_first() =~= cur + l);
    }
}

/// The character sequences of a sequence of strings.
pub open spec fn views(v: Seq<String>) -> Seq<Seq<char>> {
    v.map_values(|t: String| t@)
}

/// Whether `c` is whitespace in the sense of `is_ws`.
pub fn is_whitespace(c: char) -> (r: bool)
    ensures
        r == is_ws(c),
{
    let n = c as u32;
    (0x09 <= n && n <= 0x0d) || n == 0x20 || n == 0x85 || n == 0xa0 || n == 0x1680 || (0x2000
        <= n && n <= 0x200a) || n == 0x2028 || n == 0x2029 || n == 0x202f || n == 0x205f || n
        == 0x3000
}

/// The lower-case form of a string, as `str::to_lowercase` gives it: each
/// character replaced by its Unicode lower-case mapping.
pub uninterp spec fn lowercase(s: Seq<char>) -> Seq<char>;

/// Calls `str::to_lowercase`, whose result depends on the string alone and
/// is named `lowercase` of it; nothing more of the mapping is stated.
#[verifier::external_body]
pub(crate) fn to_lowercase(s: &str) -> (r: String)
    ensures
        r@ == lowercase(s@),
{
    s.to_lowercase()
}

/// Appends one character to a string (`String::push`).
#[verifier::external_body]
pub(crate) fn push_char(s: &mut String, c: char)
    ensures
        final(s)@ == old(s)@.push(c),
{
    s.push(c);
}

/// Appends the characters of `t` to `s`.
pub fn push_str(s: &mut String, t: &str)
    ensures
        final(s)@ == old(s)@ + t@,
{
    let v = chars_of(t);
    let mut i: usize = 0;
    while i < v.len()
        invariant
            i <= v@.len(),
            v@ == t@,
            s@ == old(s)@ + v@.take(i as int),
        decreases v@.len() - i,
    {
        push_char(s, v[i]);
        assert(v@.take(i as int + 1) =~= v@.take(i as int).push(v@[i as int]));
        assert(s@ =~= old(s)@ + v@.take(i as int + 1));
        i = i + 1;
    }
    assert(v@.take(i as int) =~= v@);
}

/// Whether `a` and `b` hold the same characters.
pub fn str_eq(a: &str, b: &str) -> (r: bool)
    ensures
        r == (a@ == b@),
{
    a.to_owned().eq(&b.to_owned())
}

/// The characters of `s`, in order.
pub fn chars_of(s: &str) -> (v: Vec<char>)
    ensures
        v@ == s@,
{
    let mut v: Vec<char> = Vec::new();
    for c in it: s.chars()
        invariant
            v@ == it.seq().take(it.index() as int),
            it.seq() == s@,
    {
        v.push(c);
        assert(v@ =~= it.seq().take(it.index() as int + 1));
    }
    v
}

/// The words of `s`: its maximal runs of non-whitespace characters.
pub fn split_whitespace(s: &str) -> (r: Vec<String>)
    ensures
        views(r@) == words(s@),
{
    let v = chars_of(s);
    let mut out: Vec<String> = Vec::new();
    let mut cur = String::new();
    let mut i: usize = 0;
    assert(views(out@) =~= Seq::<Seq<char>>::empty());
    assert(v@.skip(0) =~= v@);
    assert(views(out@) + words_from(v@.skip(0), cur@) =~= words(s@));
    while i < v.len()
        invariant
            i <= v@.len(),
            v@ == s@,
            views(out@) + words_from(v@.skip(i as int), cur@) == words(s@),
        decreases v@.len() - i,
    {
        let c = v[i];
        let ghost rest = v@.skip(i as int);
        assert(rest[0] == c);
        assert(rest.drop_first() =~= v@.skip(i as int + 1));
        if is_whitespace(c) {
            if !cur.as_str().is_empty() {
                let ghost before = views(out@);
                out.push(cur);
                assert(views(out@) =~= before + seq![cur@]);
            }
            proof {
                assert(cur@.len() == 0 ==> flush(cur@) =~= Seq::<Seq<char>>::empty());
            }
            assert(views(out@) + words_from(v@.skip(i as int + 1), Seq::empty()) =~= words(
                s@,
            ));
            cur = String::new();
        } else {
            push_char(&mut cur, c);
        }
        i = i + 1;
    }
    assert(v@.skip(i as int) =~= Seq::<char>::empty());
    if !cur.as_str().is_empty() {
        let ghost before = views(out@);
        out.push(cur);
        assert(views(out@) =~= before + seq![cur@]);
    } else {
        assert(views(out@) =~= views(out@) + Seq::<Seq<char>>::empty());
    }
    out
}

/// The string made of `v[lo..hi]`.
pub fn string_of(v: &Vec<char>, lo: usize, hi: usize) -> (r: String)
    requires
        lo <= hi <= v@.len(),
    ensures
        r@ == v@.subrange(lo as int, hi as int),
{
    let mut r = String::new();
    let mut i = lo;
    while i < hi
        invariant
            lo <= i <= hi <= v@.len(),
            r@ == v@.subrange(lo as int, i as int),
        decreases hi - i,
    {
        push_char(&mut r, v[i]);
        assert(r@ =~= v@.subrange(lo as int, i as int + 1));
        i = i + 1;
    }
    r
}

/// The lines of `s`, as `lines` states them.
pub fn split_lines(s: &str) -> (r: Vec<String>)
    ensures
        views(r@) == lines(s@),
{
    let v = chars_of(s);
    let mut out: Vec<String> = Vec::new();
    let mut start: usize = 0;
    let mut i: usize = 0;
    assert(views(out@) =~= Seq::<Seq<char>>::empty());
    assert(v@.skip(0) =~= v@);
    assert(v@.subrange(0, 0) =~= Seq::<char>::empty());
    assert(views(out@) + lines_from(v@.skip(0), v@.subrange(0, 0)) =~= lines(s@));
    while i < v.len()
        invariant
            start <= i <= v@.len(),
            v@ == s@,
            views(out@) + lines_from(v@.skip(i as int), v@.subrange(start as int, i as int))
                == lines(s@),
        decreases v@.len() - i,
    {
        let c = v[i];
        let ghost rest = v@.skip(i as int);
        let ghost cur = v@.subrange(start as int, i as int);
        assert(rest[0] == c);
        assert(rest.drop_first() =~= v@.skip(i as int + 1));
        if c == '\n' {
            let end = if i > start && v[i - 1] == '\r' {
                i - 1
            } else {
                i
            };
            let line = string_of(&v, start, end);
            assert(line@ =~= strip_cr(cur));
            let ghost before = views(out@);
            out.push(line);
            assert(views(out@) =~= before + seq![strip_cr(cur)]);
            assert(v@.subrange(i as int + 1, i as int + 1) =~= Seq::<char>::empty());
            assert(views(out@) + lines_from(
                v@.skip(i as int + 1),
                v@.subrange(i as int + 1, i as int + 1),
            ) =~= lines(s@));
            start = i + 1;
        } else {
            assert(cur.push(c) =~= v@.subrange(start as int, i as int + 1));
        }
        i = i + 1;
    }
    assert(v@.skip(i as int) =~= Seq::<char>::empty());
    if start < i {
        let line = string_of(&v, start, i);
        let ghost before = views(out@);
        out.push(line);
        assert(views(out@) =~= before + seq![line@]);
    } else {
        assert(v@.subrange(start as int, i as int) =~= Seq::<char>::empty());
        assert(views(out@) =~= views(out@) + Seq::<Seq<char>>::empty());
    }
    out
}

/// Whether `needle` occurs in `hay` at position `i`.
pub open spec fn occurs_at(hay: Seq<char>, needle: Seq<char>, i: int) -> bool {
    0 <= i && i + needle.len() <= hay.len() && hay.subrange(i, i + needle.len()) == needle
}

/// Whether `needle` occurs anywhere in `hay`.
pub open spec fn contains(hay: Seq<char>, needle: Seq<char>) -> bool {
    exists|i: int| occurs_at(hay, needle, i)
}

/// Whether `needle` is a substring of `hay`.
pub fn str_contains(hay: &str, needle: &str) -> (r: bool)
    ensures
        r == contains(hay@, needle@),
{
    let h = chars_of(hay);
    let n = chars_of(needle);
    if n.len() > h.len() {
        assert forall|i: int| !occurs_at(hay@, needle@, i) by {}
        return false;
    }
    let mut i: usize = 0;
    while i <= h.len() - n.len()
        invariant
            h@ == hay@,
            n@ == needle@,
            n@.len() <= h@.len(),
            i <= h@.len() - n@.len() + 1,
            forall|j: int| 0 <= j < i ==> !occurs_at(hay@, needle@, j),
        decreases h@.len() - n@.len() + 1 - i,
    {
        let mut k: usize = 0;
        let mut same = true;
        while k < n.len()
            invariant
                h@ == hay@,
                n@ == needle@,
                i + n@.len() <= h@.len(),
                k <= n@.len(),
                same == (forall|m: int| 0 <= m < k ==> h@[i + m] == n@[m]),
            decreases n@.len() - k,
        {
            assert(i + k < h.len());
            if h[i + k] != n[k] {
                same = false;
            }
            k = k + 1;
        }
        if same {
            assert(h@.subrange(i as int, i + n@.len()) =~= n@);
            assert(occurs_at(hay@, needle@, i as int));
            return true;
        }
        assert(!occurs_at(hay@, needle@, i as int)) by {
            if occurs_at(hay@, needle@, i as int) {
                assert forall|m: int| 0 <= m < n@.len() implies h@[i + m] == n@[m] by {
                    assert(h@.subrange(i as int, i + n@.len())[m] == h@[i + m]);
                }
            }
        }
        i = i + 1;
    }
    assert forall|j: int| !occurs_at(hay@, needle@, j) by {
        if 0 <= j < i {
        }
    }
    false
}

} // verus!
