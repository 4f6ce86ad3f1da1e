//! Small verified string utilities: equality, joining path segments,
//! splitting, and character replacement, all specified over `Seq<char>`.

use vstd::prelude::*;
use vstd::string::*;

verus! {

/// Compares two string slices character by character.
pub fn str_eq(a: &str, b: &str) -> (r: bool)
    ensures
        r == (a@ == b@),
{
    let alen = a.unicode_len();
    let blen = b.unicode_len();
    if alen != blen {
        return false;
    }
    let mut i: usize = 0;
    while i < alen
        invariant
            alen == a@.len(),
            blen == b@.len(),
            alen == blen,
            i <= alen,
            forall|k: int| 0 <= k < i ==> a@[k] == b@[k],
        decreases alen - i,
    {
        if a.get_char(i) != b.get_char(i) {
            return false;
        }
        i += 1;
    }
    proof {
        assert(a@ =~= b@);
    }
    true
}

/// The segments of `segs` joined with `/` between them.
pub open spec fn join_slash(segs: Seq<Seq<char>>) -> Seq<char>
    decreases segs.len(),
{
    if segs.len() == 0 {
        Seq::empty()
    } else if segs.len() == 1 {
        segs[0]
    } else {
        join_slash(segs.drop_last()) + seq!['/'] + segs.last()
    }
}

/// Joins path segments with `/`; a leading empty segment thus yields an
/// absolute textual path.
pub fn join_segments(segs: &Vec<String>) -> (r: String)
    ensures
        r@ == join_slash(segs.deep_view()),
{
    let mut r = String::new();
    let mut i: usize = 0;
    while i < segs.len()
        invariant
            i <= segs.len(),
            r@ == join_slash(segs.deep_view().take(i as int)),
        decreases segs.len() - i,
    {
        if i > 0 {
            r.append("/");
        }
        r.append(segs[i].as_str());
        proof {
            reveal_strlit("/");
            let pre = segs.deep_view().take(i as int);
            let cur = segs.deep_view().take(i + 1);
            assert(cur.drop_last() =~= pre);
            assert(cur.last() == segs.deep_view()[i as int]);
            assert(r@ =~= join_slash(cur));
        }
        i += 1;
    }
    proof {
        assert(segs.deep_view().take(segs.len() as int) =~= segs.deep_view());
    }
    r
}

/// `name` with every `-` replaced by `_`.
pub open spec fn underscored(name: Seq<char>) -> Seq<char> {
    name.map_values(|c: char| if c == '-' { '_' } else { c })
}

/// Replaces every `-` with `_`, as done to a crate name before it appears in
/// a compiled artifact's filename.
pub fn replace_dashes(name: &str) -> (r: String)
    ensures
        r@ == underscored(name@),
{
    let len = name.unicode_len();
    let mut r = String::new();
    let mut i: usize = 0;
    while i < len
        invariant
            len == name@.len(),
            i <= len,
            r@ == underscored(name@.take(i as int)),
        decreases len - i,
    {
        let c = name.get_char(i);
        if c == '-' {
            r.append("_");
        } else {
            let piece = name.substring_char(i, i + 1);
            r.append(piece);
        }
        proof {
            reveal_strlit("_");
            assert(name@.take(i + 1).drop_last() =~= name@.take(i as int));
            assert(name@.subrange(i as int, i + 1) =~= seq![name@[i as int]]);
            assert(r@ =~= underscored(name@.take(i + 1)));
        }
        i += 1;
    }
    proof {
        assert(name@.take(name@.len() as int) =~= name@);
    }
    r
}

/// Splits `s` at every occurrence of `sep`; adjoining separators produce
/// empty pieces, and the result always has one more piece than there are
/// separators.
pub open spec fn split_on(s: Seq<char>, sep: char) -> Seq<Seq<char>>
    decreases s.len(),
{
    if s.len() == 0 {
        seq![Seq::empty()]
    } else {
        let init = split_on(s.drop_last(), sep);
        let c = s.last();
        if c == sep {
            init.push(Seq::empty())
        } else {
            init.update(init.len() - 1, init.last().push(c))
        }
    }
}

proof fn lemma_split_on_nonempty(s: Seq<char>, sep: char)
    ensures
        split_on(s, sep).len() >= 1,
    decreases s.len(),
{
    if s.len() > 0 {
        lemma_split_on_nonempty(s.drop_last(), sep);
    }
}

/// Splits a path string at `/` into its segments.
pub fn split_slash(s: &str) -> (r: Vec<String>)
    ensures
        r.deep_view() == split_on(s@, '/'),
{
    let len = s.unicode_len();
    let mut r: Vec<String> = Vec::new();
    r.push(String::new());
    let mut i: usize = 0;
    while i < len
        invariant
            len == s@.len(),
            i <= len,
            r.len() >= 1,
            r.deep_view() =~= split_on(s@.take(i as int), '/'),
        decreases len - i,
    {
        let c = s.get_char(i);
        if c == '/' {
            r.push(String::new());
        } else {
            let piece = s.substring_char(i, i + 1);
            let mut last = r.pop().unwrap();
            last.append(piece);
            r.push(last);
        }
        proof {
            assert(s@.take(i + 1).drop_last() =~= s@.take(i as int));
            assert(s@.subrange(i as int, i + 1) =~= seq![s@[i as int]]);
            lemma_split_on_nonempty(s@.take(i as int), '/');
            assert(r.deep_view() =~~= split_on(s@.take(i + 1), '/'));
        }
        i += 1;
    }
    proof {
        assert(s@.take(s@.len() as int) =~= s@);
    }
    r
}

/// ASCII whitespace, as the exec-form splitting understands it.
pub open spec fn is_ascii_ws(c: char) -> bool {
    c == ' ' || c == '\t' || c == '\n' || c == '\r' || c == '\u{c}'
}

/// The maximal runs of non-whitespace characters of `s`, in order.
pub open spec fn split_ws(s: Seq<char>) -> Seq<Seq<char>>
    decreases s.len(),
{
    if s.len() == 0 {
        Seq::empty()
    } else {
        let init = split_ws(s.drop_last());
        let c = s.last();
        if is_ascii_ws(c) {
            init
        } else if s.len() >= 2 && !is_ascii_ws(s[s.len() - 2]) {
            init.update(init.len() - 1, init.last().push(c))
        } else {
            init.push(seq![c])
        }
    }
}

proof fn lemma_split_ws_open(s: Seq<char>)
    requires
        s.len() > 0,
        !is_ascii_ws(s.last()),
    ensures
        split_ws(s).len() >= 1,
    decreases s.len(),
{
    if s.len() >= 2 && !is_ascii_ws(s[s.len() - 2]) {
        lemma_split_ws_open(s.drop_last());
    }
}

/// Splits on runs of ASCII whitespace, keeping only the non-empty words.
pub fn split_whitespace(s: &str) -> (r: Vec<String>)
    ensures
        r.deep_view() == split_ws(s@),
{
    let len = s.unicode_len();
    let mut r: Vec<String> = Vec::new();
    let mut prev_ws = true;
    let mut i: usize = 0;
    while i < len
        invariant
            len == s@.len(),
            i <= len,
            r.deep_view() =~= split_ws(s@.take(i as int)),
            prev_ws == (i == 0 || is_ascii_ws(s@[i - 1])),
        decreases len - i,
    {
        let c = s.get_char(i);
        let c_ws = c == ' ' || c == '\t' || c == '\n' || c == '\r' || c == '\u{c}';
        proof {
            assert(c_ws == is_ascii_ws(s@[i as int]));
            assert(s@.take(i + 1).drop_last() =~= s@.take(i as int));
            assert(s@.take(i + 1).last() == s@[i as int]);
            assert(s@.subrange(i as int, i + 1) =~= seq![s@[i as int]]);
            if i > 0 {
                assert(s@.take(i + 1)[i - 1] == s@[i - 1]);
            }
        }
        if c_ws {
        } else if !prev_ws {
            proof {
                lemma_split_ws_open(s@.take(i as int));
            }
            let piece = s.substring_char(i, i + 1);
            let mut last = r.pop().unwrap();
            last.append(piece);
            r.push(last);
        } else {
            let piece = s.substring_char(i, i + 1);
            let mut word = String::new();
            word.append(piece);
            r.push(word);
        }
        proof {
            assert(r.deep_view() =~~= split_ws(s@.take(i + 1)));
        }
        prev_ws = c_ws;
        i += 1;
    }
    proof {
        assert(s@.take(s@.len() as int) =~= s@);
    }
    r
}

/// Every part wrapped in double quotes, the parts joined with `, `.
pub open spec fn quoted_join(parts: Seq<Seq<char>>) -> Seq<char>
    decreases parts.len(),
{
    if parts.len() == 0 {
        Seq::empty()
    } else if parts.len() == 1 {
        "\""@ + parts[0] + "\""@
    } else {
        quoted_join(parts.drop_last()) + ", "@ + "\""@ + parts.last() + "\""@
    }
}

/// Renders the exec-array body of an `ENTRYPOINT` or `CMD` directive.
pub fn quote_join(parts: &Vec<String>) -> (r: String)
    ensures
        r@ == quoted_join(parts.deep_view()),
{
    let mut r = String::new();
    let mut i: usize = 0;
    while i < parts.len()
        invariant
            i <= parts.len(),
            r@ == quoted_join(parts.deep_view().take(i as int)),
        decreases parts.len() - i,
    {
        if i > 0 {
            r.append(", ");
        }
        r.append("\"");
        r.append(parts[i].as_str());
        r.append("\"");
        proof {
            let pre = parts.deep_view().take(i as int);
            let cur = parts.deep_view().take(i + 1);
            assert(cur.drop_last() =~= pre);
            assert(cur.last() == parts.deep_view()[i as int]);
            assert(parts.deep_view()[i as int] == parts@[i as int]@);
            assert(r@ =~= quoted_join(cur));
        }
        i += 1;
    }
    proof {
        assert(parts.deep_view().take(parts@.len() as int) =~= parts.deep_view());
    }
    r
}

} // verus!
