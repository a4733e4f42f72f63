use core::cmp::Ordering;
use vstd::prelude::*;
use crate::line::is_ascii_space;
use vstd::string::*;

verus! {

/// Lexicographic order of `a` and `b` from position `i` on, by code point.
pub open spec fn lex_cmp_from(a: Seq<char>, b: Seq<char>, i: int) -> Ordering
    decreases a.len() - i,
{
    if i >= a.len() {
        if i >= b.len() {
            Ordering::Equal
        } else {
            Ordering::Less
        }
    } else if i >= b.len() {
        Ordering::Greater
    } else if (a[i] as u32) < (b[i] as u32) {
        Ordering::Less
    } else if (a[i] as u32) > (b[i] as u32) {
        Ordering::Greater
    } else {
        lex_cmp_from(a, b, i + 1)
    }
}

/// Lexicographic order of two texts, by code point.
pub open spec fn lex_cmp(a: Seq<char>, b: Seq<char>) -> Ordering {
    lex_cmp_from(a, b, 0)
}

pub proof fn lemma_lex_cmp_from_refl(a: Seq<char>, i: int)
    requires
        0 <= i,
    ensures
        lex_cmp_from(a, a, i) == Ordering::Equal,
    decreases a.len() - i,
{
    if i < a.len() {
        lemma_lex_cmp_from_refl(a, i + 1);
    }
}

pub proof fn lemma_lex_cmp_from_trans(a: Seq<char>, b: Seq<char>, c: Seq<char>, i: int)
    requires
        0 <= i,
        lex_cmp_from(a, b, i) == Ordering::Less,
        lex_cmp_from(b, c, i) == Ordering::Less,
    ensures
        lex_cmp_from(a, c, i) == Ordering::Less,
    decreases a.len() - i,
{
    if i < a.len() && i < b.len() && i < c.len() && (a[i] as u32) == (b[i] as u32) && (b[i]
        as u32) == (c[i] as u32) {
        lemma_lex_cmp_from_trans(a, b, c, i + 1);
    }
}

/// Compares two texts lexicographically, by code point.
pub fn compare_text(a: &str, b: &str) -> (r: Ordering)
    ensures
        r == lex_cmp(a@, b@),
{
    let la = a.unicode_len();
    let lb = b.unicode_len();
    let mut i: usize = 0;
    while i < la && i < lb
        invariant
            la == a@.len(),
            lb == b@.len(),
            i <= la,
            i <= lb,
            lex_cmp(a@, b@) == lex_cmp_from(a@, b@, i as int),
        decreases la - i,
    {
        let ca = a.get_char(i);
        let cb = b.get_char(i);
        if (ca as u32) < (cb as u32) {
            return Ordering::Less;
        } else if (ca as u32) > (cb as u32) {
            return Ordering::Greater;
        }
        i = i + 1;
    }
    if i < la {
        Ordering::Greater
    } else if i < lb {
        Ordering::Less
    } else {
        Ordering::Equal
    }
}

/// Whether `tag` names a sub-tag of `filter`: it starts with `filter`
/// followed by a hyphen.
pub open spec fn is_sub_tag(tag: Seq<char>, filter: Seq<char>) -> bool {
    tag.len() > filter.len() && tag.subrange(0, filter.len() as int) == filter
        && tag[filter.len() as int] == '-'
}

/// Hierarchical tag matching: the tag itself or one of its sub-tags.
pub open spec fn tag_matches(tag: Seq<char>, filter: Seq<char>) -> bool {
    tag == filter || is_sub_tag(tag, filter)
}

/// Whether `tag` equals `filter` or starts with `filter` and a hyphen.
pub fn matches_hierarchically(tag: &str, filter: &str) -> (r: bool)
    ensures
        r == tag_matches(tag@, filter@),
{
    let lt = tag.unicode_len();
    let lf = filter.unicode_len();
    if lt < lf {
        return false;
    }
    let mut i: usize = 0;
    while i < lf
        invariant
            lt == tag@.len(),
            lf == filter@.len(),
            lf <= lt,
            i <= lf,
            forall|k: int| 0 <= k < i ==> tag@[k] == filter@[k],
        decreases lf - i,
    {
        if tag.get_char(i) != filter.get_char(i) {
            assert(tag@.subrange(0, lf as int)[i as int] != filter@[i as int]);
            return false;
        }
        i = i + 1;
    }
    assert(tag@.subrange(0, lf as int) =~= filter@);
    if lt == lf {
        assert(tag@ =~= filter@);
        true
    } else {
        tag.get_char(lf) == '-'
    }
}

/// The markup escape of one character.
pub open spec fn escape_char(c: char) -> Seq<char> {
    if c == '&' {
        seq!['&', 'a', 'm', 'p', ';']
    } else if c == '<' {
        seq!['&', 'l', 't', ';']
    } else if c == '>' {
        seq!['&', 'g', 't', ';']
    } else if c == '\'' {
        seq!['&', 'a', 'p', 'o', 's', ';']
    } else if c == '"' {
        seq!['&', 'q', 'u', 'o', 't', ';']
    } else {
        seq![c]
    }
}

/// A text with each of `& < > ' "` replaced by its entity.
pub open spec fn escaped(s: Seq<char>) -> Seq<char>
    decreases s.len(),
{
    if s.len() == 0 {
        Seq::empty()
    } else {
        escaped(s.drop_last()) + escape_char(s.last())
    }
}

/// Whether `://` stands in `s`.
pub open spec fn has_scheme_mark(s: Seq<char>) -> bool {
    exists|i: int| 0 <= i && i + 3 <= s.len() && #[trigger] s[i] == ':' && s[i + 1] == '/' && s[i + 2] == '/'
}

/// Whether a `+` or `@` stands at `i`, at the start of `s` or after a
/// character that may be whitespace (ASCII whitespace or non-ASCII).
pub open spec fn tag_mark_at(s: Seq<char>, i: int) -> bool {
    &&& 0 <= i < s.len()
    &&& s[i] == '+' || s[i] == '@'
    &&& i == 0 || is_ascii_space(s[i - 1]) || (s[i - 1] as u32) >= 128
}

/// Whether a `+` or `@` stands where a tag may start.
pub open spec fn has_tag_mark(s: Seq<char>) -> bool {
    exists|i: int| #[trigger] tag_mark_at(s, i)
}

pub open spec fn is_special(c: char) -> bool {
    c == '&' || c == '<' || c == '>' || c == '\'' || c == '"'
}

proof fn lemma_escaped_unfold(s: Seq<char>)
    requires
        s.len() > 0,
    ensures
        escaped(s) == escaped(s.drop_last()) + escape_char(s.last()),
        escaped(s).len() > 0,
        escaped(s).last() == (if is_special(s.last()) { ';' } else { s.last() }),
        !is_special(s.last()) ==> escaped(s) == escaped(s.drop_last()).push(s.last()),
{
    let e = escape_char(s.last());
    let p = escaped(s.drop_last());
    assert((p + e).last() == e.last());
    if !is_special(s.last()) {
        assert(p + e =~= p.push(s.last()));
    }
}

/// Escaping brings in no `://`.
pub proof fn lemma_escaped_no_scheme_mark(s: Seq<char>)
    requires
        !has_scheme_mark(s),
    ensures
        !has_scheme_mark(escaped(s)),
    decreases s.len(),
{
    if s.len() > 0 {
        let p = s.drop_last();
        assert(!has_scheme_mark(p)) by {
            if has_scheme_mark(p) {
                let i = choose|i: int| 0 <= i && i + 3 <= p.len() && #[trigger] p[i] == ':' && p[i + 1] == '/' && p[i + 2] == '/';
                assert(s[i] == ':');
            }
        }
        lemma_escaped_no_scheme_mark(p);
        lemma_escaped_unfold(s);
        let ep = escaped(p);
        let e = escape_char(s.last());
        let es = escaped(s);
        let b = ep.len() as int;
        if has_scheme_mark(es) {
            let i = choose|i: int| 0 <= i && i + 3 <= es.len() && #[trigger] es[i] == ':' && es[i + 1] == '/' && es[i + 2] == '/';
            if i + 3 <= b {
                assert(ep[i] == ':' && ep[i + 1] == '/' && ep[i + 2] == '/');
            } else {
                assert(!is_special(s.last())) by {
                    if is_special(s.last()) {
                        assert(es[es.len() - 1] == ';');
                        let k: int = if i >= b { i } else if i + 1 >= b { i + 1 } else { i + 2 };
                        assert(es[k] == e[k - b]);
                    }
                }
                assert(es.len() == b + 1);
                assert(i == b - 2);
                assert(s.last() == '/');
                lemma_escaped_unfold(p);
                assert(p.last() == '/') by {
                    if is_special(p.last()) {
                        assert(ep.last() == ';');
                    }
                }
                let pp = p.drop_last();
                lemma_escaped_unfold(p);
                assert(ep == escaped(pp).push('/'));
                assert(pp.len() > 0) by {
                    if pp.len() == 0 {
                        assert(ep.len() == 1);
                    }
                }
                lemma_escaped_unfold(pp);
                assert(escaped(pp).last() == ':');
                assert(pp.last() == ':') by {
                    if is_special(pp.last()) {
                        assert(escaped(pp).last() == ';');
                    }
                }
                assert(s[s.len() - 3] == ':' && s[s.len() - 2] == '/' && s[s.len() - 1] == '/');
            }
        }
    }
}

/// Escaping brings in no `+` or `@` where a tag may start.
pub proof fn lemma_escaped_no_tag_mark(s: Seq<char>)
    requires
        !has_tag_mark(s),
    ensures
        !has_tag_mark(escaped(s)),
    decreases s.len(),
{
    if s.len() > 0 {
        let p = s.drop_last();
        assert(!has_tag_mark(p)) by {
            if has_tag_mark(p) {
                let i = choose|i: int| #[trigger] tag_mark_at(p, i);
                assert(tag_mark_at(s, i));
            }
        }
        lemma_escaped_no_tag_mark(p);
        lemma_escaped_unfold(s);
        let ep = escaped(p);
        let e = escape_char(s.last());
        let es = escaped(s);
        let b = ep.len() as int;
        if has_tag_mark(es) {
            let i = choose|i: int| #[trigger] tag_mark_at(es, i);
            if i < b {
                assert(es[i] == ep[i]);
                if i > 0 {
                    assert(es[i - 1] == ep[i - 1]);
                }
                assert(tag_mark_at(ep, i));
            } else {
                assert(!is_special(s.last())) by {
                    if is_special(s.last()) {
                        assert(es[i] == e[i - b]);
                    }
                }
                assert(i == b);
                assert(s.last() == es[i]);
                if p.len() == 0 {
                    assert(tag_mark_at(s, 0));
                } else {
                    lemma_escaped_unfold(p);
                    assert(es[i - 1] == ep.last());
                    if is_special(p.last()) {
                        assert(ep.last() == ';');
                    } else {
                        assert(s[s.len() - 2] == p.last());
                        assert(tag_mark_at(s, s.len() - 1));
                    }
                }
            }
        }
    }
}

/// A text with each `&` replaced by `&amp;`.
pub open spec fn ampersands_escaped(s: Seq<char>) -> Seq<char>
    decreases s.len(),
{
    if s.len() == 0 {
        Seq::empty()
    } else {
        ampersands_escaped(s.drop_last()) + (if s.last() == '&' {
            seq!['&', 'a', 'm', 'p', ';']
        } else {
            seq![s.last()]
        })
    }
}

/// Escapes the five markup-significant characters of `text`.
pub fn markup_escape(text: &str) -> (r: String)
    ensures
        r@ == escaped(text@),
{
    let n = text.unicode_len();
    let mut out = String::new();
    let mut i: usize = 0;
    while i < n
        invariant
            n == text@.len(),
            i <= n,
            out@ == escaped(text@.subrange(0, i as int)),
        decreases n - i,
    {
        let c = text.get_char(i);
        proof {
            reveal_strlit("&amp;");
            reveal_strlit("&lt;");
            reveal_strlit("&gt;");
            reveal_strlit("&apos;");
            reveal_strlit("&quot;");
            assert(text@.subrange(0, i + 1).drop_last() =~= text@.subrange(0, i as int));
        }
        if c == '&' {
            out.append("&amp;");
        } else if c == '<' {
            out.append("&lt;");
        } else if c == '>' {
            out.append("&gt;");
        } else if c == '\'' {
            out.append("&apos;");
        } else if c == '"' {
            out.append("&quot;");
        } else {
            out.append(text.substring_char(i, i + 1));
        }
        assert(out@ =~= escaped(text@.subrange(0, i + 1)));
        i = i + 1;
    }
    assert(text@.subrange(0, n as int) =~= text@);
    out
}

/// The anchor that links `url`: the target has each `&` escaped, the
/// visible text is `url` as it stands.
pub open spec fn anchor(url: Seq<char>) -> Seq<char> {
    seq!['<', 'a', ' ', 'h', 'r', 'e', 'f', '=', '"'] + ampersands_escaped(url) + seq!['"', '>'] + url
        + seq!['<', '/', 'a', '>']
}

/// Builds the anchor that links `url`.
pub fn link_anchor(url: &str) -> (r: String)
    ensures
        r@ == anchor(url@),
{
    proof {
        reveal_strlit("<a href=\"");
        reveal_strlit("\">");
        reveal_strlit("</a>");
        reveal_strlit("&amp;");
    }
    let n = url.unicode_len();
    let mut target = String::new();
    let mut i: usize = 0;
    while i < n
        invariant
            n == url@.len(),
            i <= n,
            target@ == ampersands_escaped(url@.subrange(0, i as int)),
        decreases n - i,
    {
        proof {
            reveal_strlit("&amp;");
            assert(url@.subrange(0, i + 1).drop_last() =~= url@.subrange(0, i as int));
        }
        if url.get_char(i) == '&' {
            target.append("&amp;");
        } else {
            target.append(url.substring_char(i, i + 1));
        }
        assert(target@ =~= ampersands_escaped(url@.subrange(0, i + 1)));
        i = i + 1;
    }
    assert(url@.subrange(0, n as int) =~= url@);
    let mut out = String::new();
    out.append("<a href=\"");
    out.append(target.as_str());
    out.append("\">");
    out.append(url);
    out.append("</a>");
    assert(out@ =~= anchor(url@));
    out
}

/// A tag in bold, after the whitespace that preceded it.
pub open spec fn bold(space: Seq<char>, tag: Seq<char>) -> Seq<char> {
    space + seq!['<', 'b', '>'] + tag + seq!['<', '/', 'b', '>']
}

/// Puts `tag` in bold after `space`.
pub fn bold_span(space: &str, tag: &str) -> (r: String)
    ensures
        r@ == bold(space@, tag@),
{
    proof {
        reveal_strlit("<b>");
        reveal_strlit("</b>");
    }
    let mut out = String::new();
    out.append(space);
    out.append("<b>");
    out.append(tag);
    out.append("</b>");
    assert(out@ =~= bold(space@, tag@));
    out
}

} // verus!
