//! Which partials a template can call, read from its source, and the check that no
//! chain of partial calls can come back to where it started.
//!
//! The reading follows handlebars' text: comments (`{{! }}`, `{{!-- --}}`) and
//! escaped mustaches (`\{{`) call nothing. Beyond that it over-approximates: any tag
//! that opens with `>` (or `#>`) after whitespace and `~` counts as a call, also
//! inside strings, and every form it does not recognise (a dynamic or quoted name,
//! a decorator other than a literal inline partial) makes the source unsupported,
//! never ignored.

use crate::text::{chars_of, is_space, is_space_char, occurs_at, string_of};
use vstd::prelude::*;

verus! {

pub const INLINE_WORD: &'static str = "inline";

pub open spec fn is_blank(ch: char) -> bool {
    is_space(ch) || ch == '~'
}

/// A character of a partial's name, as handlebars' grammar has it.
pub open spec fn is_name_char(ch: char) -> bool {
    ('a' <= ch && ch <= 'z') || ('A' <= ch && ch <= 'Z') || ('0' <= ch && ch <= '9') || ch == '-'
        || ch == '_' || ch == '/' || ch == '.' || ch >= '\u{80}'
}

/// The first position at or after `i` that is not whitespace or `~`.
pub open spec fn skip_blank(c: Seq<char>, i: int) -> int
    decreases c.len() - i,
{
    if 0 <= i < c.len() && is_blank(c[i]) {
        skip_blank(c, i + 1)
    } else {
        i
    }
}

/// The end of the name that starts at `i`.
pub open spec fn name_end(c: Seq<char>, i: int) -> int
    decreases c.len() - i,
{
    if 0 <= i < c.len() && is_name_char(c[i]) {
        name_end(c, i + 1)
    } else {
        i
    }
}

/// The first `x` at or after `i`, or the length.
pub open spec fn find_char(c: Seq<char>, i: int, x: char) -> int
    decreases c.len() - i,
{
    if 0 <= i < c.len() {
        if c[i] == x {
            i
        } else {
            find_char(c, i + 1, x)
        }
    } else {
        c.len() as int
    }
}

pub open spec fn count_char(c: Seq<char>, x: char) -> nat
    decreases c.len(),
{
    if c.len() == 0 {
        0
    } else {
        count_char(c.drop_last(), x) + if c.last() == x {
            1nat
        } else {
            0nat
        }
    }
}

/// Quotes come in pairs and nothing is escaped, so no string hides the tag's end.
pub open spec fn plain_quotes(c: Seq<char>) -> bool {
    count_char(c, '"') % 2 == 0 && count_char(c, '\'') % 2 == 0 && count_char(c, '\\') == 0
}

pub open spec fn has_word(c: Seq<char>, j: int, w: Seq<char>) -> bool {
    0 <= j && j + w.len() <= c.len() && c.subrange(j, j + w.len()) == w
}

/// What a tag, `{{` content `}}`, means for partial calls.
pub enum TagModel {
    /// A form that is not understood: the source is unsupported.
    Reject,
    /// A call of the partial with this name.
    Call(Seq<char>),
    /// The start of an inline partial with this name.
    InlineStart(Seq<char>),
    InlineEnd,
    Other,
}

pub open spec fn call_tag(c: Seq<char>, k: int) -> TagModel {
    let j = skip_blank(c, k);
    let e = name_end(c, j);
    if e == j {
        TagModel::Reject
    } else {
        TagModel::Call(c.subrange(j, e))
    }
}

pub open spec fn inline_tag(c: Seq<char>, k: int) -> TagModel {
    let j = skip_blank(c, k);
    if has_word(c, j, INLINE_WORD@) {
        let q = skip_blank(c, j + INLINE_WORD@.len());
        if q < c.len() && c[q] == '"' {
            let e = find_char(c, q + 1, '"');
            if e < c.len() && skip_blank(c, e + 1) == c.len() {
                TagModel::InlineStart(c.subrange(q + 1, e))
            } else {
                TagModel::Reject
            }
        } else {
            TagModel::Reject
        }
    } else {
        TagModel::Reject
    }
}

pub open spec fn classify_tag(c: Seq<char>) -> TagModel {
    let i = skip_blank(c, 0);
    if !plain_quotes(c) {
        TagModel::Reject
    } else if i >= c.len() {
        TagModel::Other
    } else if c[i] == '!' || c[i] == '*' {
        TagModel::Reject
    } else if c[i] == '{' {
        if i + 1 < c.len() && c[i + 1] == '{' {
            TagModel::Reject
        } else {
            TagModel::Other
        }
    } else if c[i] == '>' {
        call_tag(c, i + 1)
    } else if c[i] == '#' {
        let j = skip_blank(c, i + 1);
        if j < c.len() && c[j] == '>' {
            call_tag(c, j + 1)
        } else if j < c.len() && c[j] == '*' {
            inline_tag(c, j + 1)
        } else {
            TagModel::Other
        }
    } else if c[i] == '/' {
        let j = skip_blank(c, i + 1);
        if has_word(c, j, INLINE_WORD@) {
            if skip_blank(c, j + INLINE_WORD@.len()) == c.len() {
                TagModel::InlineEnd
            } else {
                TagModel::Reject
            }
        } else {
            TagModel::Other
        }
    } else {
        TagModel::Other
    }
}

pub enum Tag {
    Reject,
    Call(String),
    InlineStart(String),
    InlineEnd,
    Other,
}

impl View for Tag {
    type V = TagModel;

    open spec fn view(&self) -> TagModel {
        match self {
            Tag::Reject => TagModel::Reject,
            Tag::Call(n) => TagModel::Call(n@),
            Tag::InlineStart(n) => TagModel::InlineStart(n@),
            Tag::InlineEnd => TagModel::InlineEnd,
            Tag::Other => TagModel::Other,
        }
    }
}

fn skip_blank_at(c: &Vec<char>, i: usize) -> (r: usize)
    requires
        i <= c@.len(),
    ensures
        r == skip_blank(c@, i as int),
        i <= r <= c@.len(),
{
    let mut k = i;
    while k < c.len() && (is_space_char(c[k]) || c[k] == '~')
        invariant
            i <= k <= c@.len(),
            skip_blank(c@, i as int) == skip_blank(c@, k as int),
        decreases c@.len() - k,
    {
        k = k + 1;
    }
    k
}

fn is_name_char_exec(ch: char) -> (r: bool)
    ensures
        r == is_name_char(ch),
{
    ('a' <= ch && ch <= 'z') || ('A' <= ch && ch <= 'Z') || ('0' <= ch && ch <= '9') || ch == '-'
        || ch == '_' || ch == '/' || ch == '.' || ch >= '\u{80}'
}

fn name_end_at(c: &Vec<char>, i: usize) -> (r: usize)
    requires
        i <= c@.len(),
    ensures
        r == name_end(c@, i as int),
        i <= r <= c@.len(),
{
    let mut k = i;
    while k < c.len() && is_name_char_exec(c[k])
        invariant
            i <= k <= c@.len(),
            name_end(c@, i as int) == name_end(c@, k as int),
        decreases c@.len() - k,
    {
        k = k + 1;
    }
    k
}

fn find_char_at(c: &Vec<char>, i: usize, x: char) -> (r: usize)
    requires
        i <= c@.len(),
    ensures
        r == find_char(c@, i as int, x),
        i <= r <= c@.len(),
{
    let mut k = i;
    while k < c.len() && c[k] != x
        invariant
            i <= k <= c@.len(),
            find_char(c@, i as int, x) == find_char(c@, k as int, x),
        decreases c@.len() - k,
    {
        k = k + 1;
    }
    k
}

fn count_char_in(c: &Vec<char>, x: char) -> (r: usize)
    ensures
        r == count_char(c@, x),
{
    let mut n: usize = 0;
    let mut k: usize = 0;
    while k < c.len()
        invariant
            k <= c@.len(),
            n == count_char(c@.take(k as int), x),
            n <= k,
        decreases c@.len() - k,
    {
        assert(c@.take(k + 1).drop_last() =~= c@.take(k as int));
        if c[k] == x {
            n = n + 1;
        }
        k = k + 1;
    }
    assert(c@.take(k as int) =~= c@);
    n
}

fn has_word_at(c: &Vec<char>, j: usize, w: &Vec<char>) -> (r: bool)
    requires
        j <= c@.len(),
    ensures
        r == has_word(c@, j as int, w@),
{
    occurs_at(c, j, w)
}

fn call_tag_at(c: &Vec<char>, k: usize) -> (r: Tag)
    requires
        k <= c@.len(),
    ensures
        r@ == call_tag(c@, k as int),
{
    let j = skip_blank_at(c, k);
    let e = name_end_at(c, j);
    if e == j {
        Tag::Reject
    } else {
        Tag::Call(string_of(c, j, e))
    }
}

fn inline_tag_at(c: &Vec<char>, k: usize) -> (r: Tag)
    requires
        k <= c@.len(),
    ensures
        r@ == inline_tag(c@, k as int),
{
    let w = chars_of(INLINE_WORD);
    let j = skip_blank_at(c, k);
    if has_word_at(c, j, &w) {
        let wl = w.len();
        let cl = c.len();
        assert(j + wl <= cl);
        let q = skip_blank_at(c, j + wl);
        if q < c.len() && c[q] == '"' {
            let e = find_char_at(c, q + 1, '"');
            if e < c.len() && skip_blank_at(c, e + 1) == c.len() {
                Tag::InlineStart(string_of(c, q + 1, e))
            } else {
                Tag::Reject
            }
        } else {
            Tag::Reject
        }
    } else {
        Tag::Reject
    }
}

/// Reads one tag's content.
pub fn read_tag(c: &Vec<char>) -> (r: Tag)
    ensures
        r@ == classify_tag(c@),
{
    let w = chars_of(INLINE_WORD);
    let plain = count_char_in(c, '"') % 2 == 0 && count_char_in(c, '\'') % 2 == 0
        && count_char_in(c, '\\') == 0;
    let i = skip_blank_at(c, 0);
    if !plain {
        Tag::Reject
    } else if i >= c.len() {
        Tag::Other
    } else if c[i] == '!' || c[i] == '*' {
        Tag::Reject
    } else if c[i] == '{' {
        if i + 1 < c.len() && c[i + 1] == '{' {
            Tag::Reject
        } else {
            Tag::Other
        }
    } else if c[i] == '>' {
        call_tag_at(c, i + 1)
    } else if c[i] == '#' {
        let j = skip_blank_at(c, i + 1);
        if j < c.len() && c[j] == '>' {
            call_tag_at(c, j + 1)
        } else if j < c.len() && c[j] == '*' {
            inline_tag_at(c, j + 1)
        } else {
            Tag::Other
        }
    } else if c[i] == '/' {
        let j = skip_blank_at(c, i + 1);
        if has_word_at(c, j, &w) {
            let wl = w.len();
            let cl = c.len();
            assert(j + wl <= cl);
            if skip_blank_at(c, j + wl) == c.len() {
                Tag::InlineEnd
            } else {
                Tag::Reject
            }
        } else {
            Tag::Other
        }
    } else {
        Tag::Other
    }
}

/// Where a scan of a source stands: the content start of an unclosed tag, whether
/// a comment is open (long `{{!-- --}}` or short `{{! }}`), whether the last
/// character was a backslash, the inline partial being read, and the calls found so
/// far, in the main body and in inline partials (as inline name, called name).
pub struct ScanModel {
    pub tag: Option<int>,
    pub comment: Option<bool>,
    pub backslash: bool,
    pub open: Option<Seq<char>>,
    pub main: Seq<Seq<char>>,
    pub inline: Seq<(Seq<char>, Seq<char>)>,
}

pub open spec fn initial_calls() -> ScanModel {
    ScanModel {
        tag: None,
        comment: None,
        backslash: false,
        open: None,
        main: Seq::empty(),
        inline: Seq::empty(),
    }
}

pub open spec fn add_call(st: ScanModel, n: Seq<char>) -> ScanModel {
    match st.open {
        Some(x) => ScanModel { inline: st.inline.push((x, n)), ..st },
        None => ScanModel { main: st.main.push(n), ..st },
    }
}

/// Whether `--}}` occurs in `s` at or after `i`.
pub open spec fn long_comment_ends(s: Seq<char>, i: int) -> bool {
    exists|q: int|
        i <= q && q + 3 < s.len() && #[trigger] s[q] == '-' && s[q + 1] == '-' && s[q + 2] == '}'
            && s[q + 3] == '}'
}

/// Scans `s` from `p` as handlebars reads text: `\{{` is escaped text, unless more
/// backslashes come before it; `{{!--` opens a comment up to the first `--}}` (a
/// short one up to `}}` where no `--}}` follows); any other tag runs from `{{` to
/// the first `}}` after it. `None` where a tag is not understood or left open, or
/// inline partials nest or are left open.
pub open spec fn scan_calls(s: Seq<char>, p: int, st: ScanModel) -> Option<ScanModel>
    decreases s.len() - p,
{
    if p < 0 || p + 1 >= s.len() {
        if st.tag is Some || st.comment is Some || st.open is Some {
            None
        } else {
            Some(st)
        }
    } else {
        match st.comment {
            Some(long) => if long {
                if p + 3 < s.len() && s[p] == '-' && s[p + 1] == '-' && s[p + 2] == '}' && s[p + 3]
                    == '}' {
                    scan_calls(s, p + 4, ScanModel { comment: None, ..st })
                } else {
                    scan_calls(s, p + 1, st)
                }
            } else {
                if s[p] == '}' && s[p + 1] == '}' {
                    scan_calls(s, p + 2, ScanModel { comment: None, ..st })
                } else {
                    scan_calls(s, p + 1, st)
                }
            },
            None => match st.tag {
                None => if s[p] == '\\' {
                    if !st.backslash && p + 2 < s.len() && s[p + 1] == '{' && s[p + 2] == '{' {
                        if p + 4 < s.len() && s[p + 3] == '{' && s[p + 4] == '{' {
                            scan_calls(s, p + 5, st)
                        } else {
                            scan_calls(s, p + 3, st)
                        }
                    } else {
                        scan_calls(s, p + 1, ScanModel { backslash: true, ..st })
                    }
                } else if s[p] == '{' && s[p + 1] == '{' {
                    let st1 = ScanModel { backslash: false, ..st };
                    if p + 2 < s.len() && s[p + 2] == '!' {
                        if p + 4 < s.len() && s[p + 3] == '-' && s[p + 4] == '-' && long_comment_ends(
                            s,
                            p + 5,
                        ) {
                            scan_calls(s, p + 5, ScanModel { comment: Some(true), ..st1 })
                        } else {
                            scan_calls(s, p + 3, ScanModel { comment: Some(false), ..st1 })
                        }
                    } else {
                        scan_calls(s, p + 2, ScanModel { tag: Some(p + 2), ..st1 })
                    }
                } else {
                    scan_calls(s, p + 1, ScanModel { backslash: false, ..st })
                },
                Some(a) => if s[p] == '}' && s[p + 1] == '}' {
                    let next = ScanModel { tag: None, ..st };
                    match classify_tag(s.subrange(a, p)) {
                        TagModel::Reject => None,
                        TagModel::Call(n) => scan_calls(s, p + 2, add_call(next, n)),
                        TagModel::InlineStart(n) => if st.open is Some {
                            None
                        } else {
                            scan_calls(s, p + 2, ScanModel { open: Some(n), ..next })
                        },
                        TagModel::InlineEnd => if st.open is Some {
                            scan_calls(s, p + 2, ScanModel { open: None, ..next })
                        } else {
                            None
                        },
                        TagModel::Other => scan_calls(s, p + 2, next),
                    }
                } else {
                    scan_calls(s, p + 1, st)
                },
            },
        }
    }
}

/// The partial calls of a template source, or `None` where it is not supported.
pub open spec fn partial_calls(s: Seq<char>) -> Option<ScanModel> {
    scan_calls(s, 0, initial_calls())
}

pub open spec fn names_of(v: Seq<String>) -> Seq<Seq<char>> {
    v.map_values(|x: String| x@)
}

pub open spec fn pairs_of(v: Seq<(String, String)>) -> Seq<(Seq<char>, Seq<char>)> {
    v.map_values(|x: (String, String)| (x.0@, x.1@))
}

fn has_long_comment_end(s: &Vec<char>, i: usize) -> (r: bool)
    ensures
        r == long_comment_ends(s@, i as int),
{
    let mut q = i;
    while q < s.len()
        invariant
            i <= q,
            forall|k: int|
                i <= k < q ==> !(k + 3 < s@.len() && #[trigger] s@[k] == '-' && s@[k + 1] == '-'
                    && s@[k + 2] == '}' && s@[k + 3] == '}'),
        decreases s@.len() - q,
    {
        if s.len() - q > 3 && s[q] == '-' && s[q + 1] == '-' && s[q + 2] == '}' && s[q + 3] == '}' {
            return true;
        }
        q = q + 1;
    }
    false
}

/// The calls of a template source: those of its main body, and those inside its
/// inline partials as (inline name, called name).
pub fn read_calls(src: &str) -> (r: Option<(Vec<String>, Vec<(String, String)>)>)
    ensures
        match r {
            Some((m, il)) => partial_calls(src@) matches Some(st) && names_of(m@) == st.main
                && pairs_of(il@) == st.inline,
            None => partial_calls(src@) is None,
        },
{
    let s = chars_of(src);
    let mut tag: Option<usize> = None;
    let mut comment: Option<bool> = None;
    let mut backslash = false;
    let mut open: Option<String> = None;
    let mut main: Vec<String> = Vec::new();
    let mut inline: Vec<(String, String)> = Vec::new();
    let n = s.len();
    let mut p: usize = 0;
    assert(names_of(main@) =~= Seq::<Seq<char>>::empty());
    assert(pairs_of(inline@) =~= Seq::<(Seq<char>, Seq<char>)>::empty());
    while p < n && p + 1 < n
        invariant
            n == s@.len(),
            s@ == src@,
            p <= n,
            tag matches Some(a) ==> a <= p,
            partial_calls(src@) == scan_calls(
                s@,
                p as int,
                ScanModel {
                    tag: match tag {
                        Some(a) => Some(a as int),
                        None => None,
                    },
                    comment,
                    backslash,
                    open: match open {
                        Some(x) => Some(x@),
                        None => None,
                    },
                    main: names_of(main@),
                    inline: pairs_of(inline@),
                },
            ),
        decreases n - p,
    {
        match comment {
            Some(long) => {
                if long {
                    if n - p > 3 && s[p] == '-' && s[p + 1] == '-' && s[p + 2] == '}' && s[p + 3]
                        == '}' {
                        comment = None;
                        p = p + 4;
                    } else {
                        p = p + 1;
                    }
                } else {
                    if s[p] == '}' && s[p + 1] == '}' {
                        comment = None;
                        p = p + 2;
                    } else {
                        p = p + 1;
                    }
                }
            },
            None => {
                match tag {
                    None => {
                        if s[p] == '\\' {
                            if !backslash && n - p > 2 && s[p + 1] == '{' && s[p + 2] == '{' {
                                if n - p > 4 && s[p + 3] == '{' && s[p + 4] == '{' {
                                    p = p + 5;
                                } else {
                                    p = p + 3;
                                }
                            } else {
                                backslash = true;
                                p = p + 1;
                            }
                        } else if s[p] == '{' && s[p + 1] == '{' {
                            backslash = false;
                            if n - p > 2 && s[p + 2] == '!' {
                                if n - p > 4 && s[p + 3] == '-' && s[p + 4] == '-'
                                    && has_long_comment_end(&s, p + 5) {
                                    comment = Some(true);
                                    p = p + 5;
                                } else {
                                    comment = Some(false);
                                    p = p + 3;
                                }
                            } else {
                                tag = Some(p + 2);
                                p = p + 2;
                            }
                        } else {
                            backslash = false;
                            p = p + 1;
                        }
                    },
                    Some(a) => {
                        if s[p] == '}' && s[p + 1] == '}' {
                            let content = chars_of(string_of(&s, a, p).as_str());
                            tag = None;
                            match read_tag(&content) {
                                Tag::Reject => {
                                    return None;
                                },
                                Tag::Call(name) => {
                                    let ghost nm = name@;
                                    match &open {
                                        Some(x) => {
                                            let ghost before = pairs_of(inline@);
                                            inline.push((x.clone(), name));
                                            assert(pairs_of(inline@) =~= before.push((x@, nm)));
                                        },
                                        None => {
                                            let ghost before = names_of(main@);
                                            main.push(name);
                                            assert(names_of(main@) =~= before.push(nm));
                                        },
                                    }
                                },
                                Tag::InlineStart(name) => {
                                    if open.is_some() {
                                        return None;
                                    }
                                    open = Some(name);
                                },
                                Tag::InlineEnd => {
                                    if open.is_none() {
                                        return None;
                                    }
                                    open = None;
                                },
                                Tag::Other => {},
                            }
                            p = p + 2;
                        } else {
                            p = p + 1;
                        }
                    },
                }
            },
        }
    }
    if tag.is_some() || comment.is_some() || open.is_some() {
        return None;
    }
    Some((main, inline))
}

/// A body that partial calls can enter: a registered template, or the inline
/// partials of a name, taken together wherever they are defined.
pub enum PartialNode {
    Main(Seq<char>),
    Inline(Seq<char>),
}

/// Body `u` of the templates `m` can call the partial named `n`.
pub open spec fn calls_in(m: Map<Seq<char>, Seq<char>>, u: PartialNode, n: Seq<char>) -> bool {
    exists|t: Seq<char>|
        #![trigger m[t]]
        m.contains_key(t) && (partial_calls(m[t]) matches Some(st) && ((u == PartialNode::Main(t)
            && st.main.contains(n)) || (u matches PartialNode::Inline(x) && st.inline.contains(
            (x, n),
        ))))
}

/// Every call goes down a ranking of bodies, whichever body the called name
/// resolves to.
pub open spec fn ranked(m: Map<Seq<char>, Seq<char>>, rank: spec_fn(PartialNode) -> nat) -> bool {
    forall|u: PartialNode, n: Seq<char>|
        #[trigger] calls_in(m, u, n) ==> rank(u) > rank(PartialNode::Main(n)) && rank(u) > rank(
            PartialNode::Inline(n),
        )
}

/// Every template source is supported and no chain of partial calls comes back to
/// a body it has left, so rendering any of them ends.
pub open spec fn partials_acyclic(m: Map<Seq<char>, Seq<char>>) -> bool {
    &&& forall|t: Seq<char>| m.contains_key(t) ==> (#[trigger] partial_calls(m[t])) is Some
    &&& exists|rank: spec_fn(PartialNode) -> nat| ranked(m, rank)
}

pub proof fn lemma_no_templates_acyclic(m: Map<Seq<char>, Seq<char>>)
    requires
        m.dom().is_empty(),
    ensures
        partials_acyclic(m),
{
    let rank = |u: PartialNode| 0nat;
    assert forall|u: PartialNode, n: Seq<char>| #[trigger] calls_in(m, u, n) implies rank(u) > rank(
        PartialNode::Main(n),
    ) && rank(u) > rank(PartialNode::Inline(n)) by {
        let t = choose|t: Seq<char>| #![trigger m[t]] m.contains_key(t) && (partial_calls(m[t]) matches Some(st) && ((u
            == PartialNode::Main(t) && st.main.contains(n)) || (u matches PartialNode::Inline(x)
            && st.inline.contains((x, n)))));
        assert(m.dom().contains(t));
    }
    assert(ranked(m, rank));
}

/// A table of ranks: (is inline, name, rank).
pub open spec fn rank_in(t: Seq<(bool, String, usize)>, u: PartialNode) -> nat
    decreases t.len(),
{
    if t.len() == 0 {
        0
    } else if node(t[0].0, t[0].1@) == u {
        t[0].2 as nat
    } else {
        rank_in(t.drop_first(), u)
    }
}

pub open spec fn node(inline: bool, n: Seq<char>) -> PartialNode {
    if inline {
        PartialNode::Inline(n)
    } else {
        PartialNode::Main(n)
    }
}

/// A call edge: the calling body (is inline, name) and the called name.
pub open spec fn edge_src(e: (bool, String, String)) -> PartialNode {
    node(e.0, e.1@)
}

/// Every edge goes down the ranking, to the template and to the inline partials
/// with the called name.
pub open spec fn edges_ranked(es: Seq<(bool, String, String)>, rank: spec_fn(PartialNode) -> nat) -> bool {
    forall|i: int|
        0 <= i < es.len() ==> rank(edge_src(#[trigger] es[i])) > rank(PartialNode::Main(es[i].2@))
            && rank(edge_src(es[i])) > rank(PartialNode::Inline(es[i].2@))
}

pub open spec fn is_source(es: Seq<(bool, String, String)>, v: PartialNode) -> bool {
    exists|i: int| 0 <= i < es.len() && edge_src(#[trigger] es[i]) == v
}

pub open spec fn in_table(t: Seq<(bool, String, usize)>, v: PartialNode) -> bool {
    exists|p: int| 0 <= p < t.len() && node(#[trigger] t[p].0, t[p].1@) == v
}

/// A body is ready once it is ranked, or when it calls nothing.
pub open spec fn ready(es: Seq<(bool, String, String)>, t: Seq<(bool, String, usize)>, v: PartialNode) -> bool {
    in_table(t, v) || !is_source(es, v)
}

proof fn lemma_in_table_first(t: Seq<(bool, String, usize)>, v: PartialNode)
    requires
        t.len() > 0,
    ensures
        in_table(t, v) == (node(t[0].0, t[0].1@) == v || in_table(t.drop_first(), v)),
{
    if in_table(t, v) {
        let p = choose|p: int| 0 <= p < t.len() && node(#[trigger] t[p].0, t[p].1@) == v;
        if p > 0 {
            assert(t.drop_first()[p - 1] == t[p]);
        }
    }
    if in_table(t.drop_first(), v) {
        let p = choose|p: int| 0 <= p < t.drop_first().len() && node(#[trigger] t.drop_first()[p].0, t.drop_first()[p].1@) == v;
        assert(t[p + 1] == t.drop_first()[p]);
    }
}

proof fn lemma_rank_in_push(t: Seq<(bool, String, usize)>, e: (bool, String, usize), v: PartialNode)
    ensures
        rank_in(t.push(e), v) == if in_table(t, v) {
            rank_in(t, v)
        } else if node(e.0, e.1@) == v {
            e.2 as nat
        } else {
            0
        },
        in_table(t.push(e), v) == (in_table(t, v) || node(e.0, e.1@) == v),
    decreases t.len(),
{
    let tp = t.push(e);
    lemma_in_table_first(tp, v);
    if t.len() == 0 {
        assert(tp[0] == e);
        assert(tp.drop_first() =~= Seq::<(bool, String, usize)>::empty());
        assert(!in_table(tp.drop_first(), v));
        assert(!in_table(t, v));
        assert(rank_in(tp.drop_first(), v) == 0);
        assert(rank_in(tp, v) == if node(e.0, e.1@) == v { e.2 as nat } else { rank_in(tp.drop_first(), v) });
    } else {
        assert(tp[0] == t[0]);
        assert(tp.drop_first() =~= t.drop_first().push(e));
        lemma_rank_in_push(t.drop_first(), e, v);
        lemma_in_table_first(t, v);
        assert(rank_in(tp, v) == if node(t[0].0, t[0].1@) == v { t[0].2 as nat } else { rank_in(tp.drop_first(), v) });
        assert(rank_in(t, v) == if node(t[0].0, t[0].1@) == v { t[0].2 as nat } else { rank_in(t.drop_first(), v) });
    }
}

proof fn lemma_rank_in_bound(t: Seq<(bool, String, usize)>, v: PartialNode, b: nat)
    requires
        forall|p: int| 0 <= p < t.len() ==> (#[trigger] t[p]).2 <= b,
    ensures
        rank_in(t, v) <= b,
    decreases t.len(),
{
    if t.len() > 0 {
        assert(t[0].2 <= b);
        assert forall|p: int| 0 <= p < t.drop_first().len() implies (#[trigger] t.drop_first()[p]).2 <= b by {
            assert(t.drop_first()[p] == t[p + 1]);
        }
        lemma_rank_in_bound(t.drop_first(), v, b);
    }
}

proof fn lemma_node_eq(a: bool, x: Seq<char>, b: bool, y: Seq<char>)
    ensures
        (node(a, x) == node(b, y)) == (a == b && x == y),
{
}

proof fn lemma_count_open_all(d: Seq<bool>)
    requires
        forall|k: int| 0 <= k < d.len() ==> !#[trigger] d[k],
    ensures
        count_open(d) == d.len(),
    decreases d.len(),
{
    if d.len() > 0 {
        lemma_count_open_all(d.drop_last());
    }
}

proof fn lemma_count_open_positive(d: Seq<bool>, i: int)
    requires
        0 <= i < d.len(),
        !d[i],
    ensures
        count_open(d) >= 1,
    decreases d.len(),
{
    if i < d.len() - 1 {
        lemma_count_open_positive(d.drop_last(), i);
    }
}

fn table_has(t: &Vec<(bool, String, usize)>, inline: bool, n: &String) -> (r: bool)
    ensures
        r == in_table(t@, node(inline, n@)),
{
    let mut p: usize = 0;
    while p < t.len()
        invariant
            p <= t@.len(),
            forall|k: int| 0 <= k < p ==> node(#[trigger] t@[k].0, t@[k].1@) != node(inline, n@),
        decreases t@.len() - p,
    {
        proof {
            lemma_node_eq(t@[p as int].0, t@[p as int].1@, inline, n@);
        }
        if t[p].0 == inline && t[p].1 == *n {
            return true;
        }
        p = p + 1;
    }
    false
}

fn rank_of(t: &Vec<(bool, String, usize)>, inline: bool, n: &String) -> (r: usize)
    ensures
        r as nat == rank_in(t@, node(inline, n@)),
{
    let len = t.len();
    let mut i: usize = 0;
    assert(t@.skip(0) =~= t@);
    while i < len
        invariant
            i <= len == t@.len(),
            rank_in(t@, node(inline, n@)) == rank_in(t@.skip(i as int), node(inline, n@)),
        decreases len - i,
    {
        proof {
            lemma_node_eq(t@[i as int].0, t@[i as int].1@, inline, n@);
        }
        if t[i].0 == inline && t[i].1 == *n {
            return t[i].2;
        }
        assert(t@.skip(i as int).drop_first() =~= t@.skip(i + 1));
        i = i + 1;
    }
    0
}

fn calls_anything(es: &Vec<(bool, String, String)>, inline: bool, n: &String) -> (r: bool)
    ensures
        r == is_source(es@, node(inline, n@)),
{
    let mut i: usize = 0;
    while i < es.len()
        invariant
            i <= es@.len(),
            forall|k: int| 0 <= k < i ==> edge_src(#[trigger] es@[k]) != node(inline, n@),
        decreases es@.len() - i,
    {
        proof {
            lemma_node_eq(es@[i as int].0, es@[i as int].1@, inline, n@);
        }
        if es[i].0 == inline && es[i].1 == *n {
            return true;
        }
        i = i + 1;
    }
    false
}

/// Whether every call of body (inline, name) reaches a ready body; if so, the
/// highest rank among those it calls.
fn ready_rank(
    es: &Vec<(bool, String, String)>,
    t: &Vec<(bool, String, usize)>,
    inline: bool,
    name: &String,
) -> (r: Option<usize>)
    requires
        forall|p: int| 0 <= p < t@.len() ==> (#[trigger] t@[p]).2 <= t@.len(),
    ensures
        r matches Some(m) ==> m <= t@.len() && forall|j: int|
            0 <= j < es@.len() && edge_src(#[trigger] es@[j]) == node(inline, name@) ==> ready(
                es@,
                t@,
                PartialNode::Main(es@[j].2@),
            ) && ready(es@, t@, PartialNode::Inline(es@[j].2@)) && rank_in(
                t@,
                PartialNode::Main(es@[j].2@),
            ) <= m && rank_in(t@, PartialNode::Inline(es@[j].2@)) <= m,
        r is None ==> exists|j: int|
            0 <= j < es@.len() && edge_src(#[trigger] es@[j]) == node(inline, name@) && (!ready(
                es@,
                t@,
                PartialNode::Main(es@[j].2@),
            ) || !ready(es@, t@, PartialNode::Inline(es@[j].2@))),
{
    let mut m: usize = 0;
    let mut j: usize = 0;
    while j < es.len()
        invariant
            j <= es@.len(),
            m <= t@.len(),
            forall|p: int| 0 <= p < t@.len() ==> (#[trigger] t@[p]).2 <= t@.len(),
            forall|k: int|
                0 <= k < j && edge_src(#[trigger] es@[k]) == node(inline, name@) ==> ready(
                    es@,
                    t@,
                    PartialNode::Main(es@[k].2@),
                ) && ready(es@, t@, PartialNode::Inline(es@[k].2@)) && rank_in(
                    t@,
                    PartialNode::Main(es@[k].2@),
                ) <= m && rank_in(t@, PartialNode::Inline(es@[k].2@)) <= m,
        decreases es@.len() - j,
    {
        proof {
            lemma_node_eq(es@[j as int].0, es@[j as int].1@, inline, name@);
        }
        if es[j].0 == inline && es[j].1 == *name {
            let called = &es[j].2;
            let main_ready = table_has(t, false, called) || !calls_anything(es, false, called);
            let inline_ready = table_has(t, true, called) || !calls_anything(es, true, called);
            if !(main_ready && inline_ready) {
                return None;
            }
            let a = rank_of(t, false, called);
            let b = rank_of(t, true, called);
            proof {
                lemma_rank_in_bound(t@, PartialNode::Main(called@), t@.len() as nat);
                lemma_rank_in_bound(t@, PartialNode::Inline(called@), t@.len() as nat);
            }
            if a > m {
                m = a;
            }
            if b > m {
                m = b;
            }
        }
        j = j + 1;
    }
    Some(m)
}

pub open spec fn count_open(d: Seq<bool>) -> nat
    decreases d.len(),
{
    if d.len() == 0 {
        0
    } else {
        count_open(d.drop_last()) + if d.last() {
            0nat
        } else {
            1nat
        }
    }
}

proof fn lemma_count_open_drops(a: Seq<bool>, b: Seq<bool>, i: int)
    requires
        a.len() == b.len(),
        forall|k: int| 0 <= k < a.len() && #[trigger] a[k] ==> b[k],
        0 <= i < a.len(),
        !a[i],
        b[i],
    ensures
        count_open(b) < count_open(a),
    decreases a.len(),
{
    lemma_count_open_mono(a.drop_last(), b.drop_last());
    if i < a.len() - 1 {
        lemma_count_open_drops(a.drop_last(), b.drop_last(), i);
    }
}

proof fn lemma_count_open_mono(a: Seq<bool>, b: Seq<bool>)
    requires
        a.len() == b.len(),
        forall|k: int| 0 <= k < a.len() && #[trigger] a[k] ==> b[k],
    ensures
        count_open(b) <= count_open(a),
    decreases a.len(),
{
    if a.len() > 0 {
        lemma_count_open_mono(a.drop_last(), b.drop_last());
    }
}

/// An open edge whose source has the least rank among open edges, below `hi`.
proof fn lemma_least_open(
    es: Seq<(bool, String, String)>,
    d: Seq<bool>,
    rank: spec_fn(PartialNode) -> nat,
    hi: int,
) -> (m: int)
    requires
        d.len() == es.len(),
        0 < hi <= es.len(),
        exists|i: int| 0 <= i < hi && !#[trigger] d[i],
    ensures
        0 <= m < hi,
        !d[m],
        forall|k: int| 0 <= k < hi && !#[trigger] d[k] ==> rank(edge_src(es[m])) <= rank(edge_src(es[k])),
    decreases hi,
{
    if exists|i: int| 0 <= i < hi - 1 && !#[trigger] d[i] {
        let m0 = lemma_least_open(es, d, rank, hi - 1);
        if !d[hi - 1] && rank(edge_src(es[hi - 1])) < rank(edge_src(es[m0])) {
            hi - 1
        } else {
            m0
        }
    } else {
        hi - 1
    }
}

/// Whether some ranking makes every call edge go down. Bodies are ranked one at a
/// time once everything they call is ranked or calls nothing; where none is left
/// that can be, the rest call one another and no ranking exists.
pub fn edges_acyclic(es: &Vec<(bool, String, String)>) -> (r: bool)
    ensures
        r == exists|rank: spec_fn(PartialNode) -> nat| edges_ranked(es@, rank),
{
    let e = es.len();
    let mut done: Vec<bool> = Vec::new();
    while done.len() < e
        invariant
            done@.len() <= e == es@.len(),
            forall|k: int| 0 <= k < done@.len() ==> !#[trigger] done@[k],
        decreases e - done@.len(),
    {
        done.push(false);
    }
    let mut t: Vec<(bool, String, usize)> = Vec::new();
    proof {
        lemma_count_open_all(done@);
    }
    loop
        invariant
            e == es@.len(),
            done@.len() == e,
            t@.len() + count_open(done@) <= e,
            forall|p: int| 0 <= p < t@.len() ==> (#[trigger] t@[p]).2 <= t@.len(),
            forall|i: int| 0 <= i < e ==> (#[trigger] done@[i] <==> in_table(t@, edge_src(es@[i]))),
            forall|v: PartialNode| in_table(t@, v) ==> is_source(es@, v),
            forall|i: int|
                0 <= i < e && #[trigger] done@[i] ==> ready(es@, t@, PartialNode::Main(es@[i].2@))
                    && ready(es@, t@, PartialNode::Inline(es@[i].2@)) && rank_in(t@, edge_src(es@[i]))
                    > rank_in(t@, PartialNode::Main(es@[i].2@)) && rank_in(t@, edge_src(es@[i]))
                    > rank_in(t@, PartialNode::Inline(es@[i].2@)),
        decreases count_open(done@),
    {
        let mut found: Option<(usize, usize)> = None;
        let mut i: usize = 0;
        while i < e && found.is_none()
            invariant
                i <= e == es@.len(),
                done@.len() == e,
                t@.len() + count_open(done@) <= e,
                forall|p: int| 0 <= p < t@.len() ==> (#[trigger] t@[p]).2 <= t@.len(),
                found matches Some((i0, m)) ==> i0 < e && !done@[i0 as int] && m <= t@.len() && forall|j: int|
                    0 <= j < es@.len() && edge_src(#[trigger] es@[j]) == edge_src(es@[i0 as int]) ==> ready(
                        es@,
                        t@,
                        PartialNode::Main(es@[j].2@),
                    ) && ready(es@, t@, PartialNode::Inline(es@[j].2@)) && rank_in(
                        t@,
                        PartialNode::Main(es@[j].2@),
                    ) <= m && rank_in(t@, PartialNode::Inline(es@[j].2@)) <= m,
                found is None ==> forall|k: int|
                    0 <= k < i && !#[trigger] done@[k] ==> exists|j: int|
                        0 <= j < es@.len() && edge_src(#[trigger] es@[j]) == edge_src(es@[k]) && (!ready(
                            es@,
                            t@,
                            PartialNode::Main(es@[j].2@),
                        ) || !ready(es@, t@, PartialNode::Inline(es@[j].2@))),
            decreases e - i,
        {
            if !done[i] {
                match ready_rank(es, &t, es[i].0, &es[i].1) {
                    Some(m) => {
                        assert(node(es@[i as int].0, es@[i as int].1@) == edge_src(es@[i as int]));
                        found = Some((i, m));
                    },
                    None => {},
                }
            }
            i = i + 1;
        }
        match found {
            None => {
                let mut all = true;
                let mut k: usize = 0;
                while k < e
                    invariant
                        k <= e == done@.len(),
                        all ==> forall|q: int| 0 <= q < k ==> #[trigger] done@[q],
                        !all ==> exists|q: int| 0 <= q < e && !#[trigger] done@[q],
                    decreases e - k,
                {
                    if !done[k] {
                        all = false;
                    }
                    k = k + 1;
                }
                if all {
                    proof {
                        let rank = |v: PartialNode| rank_in(t@, v);
                        assert forall|q: int| 0 <= q < es@.len() implies rank(edge_src(#[trigger] es@[q]))
                            > rank(PartialNode::Main(es@[q].2@)) && rank(edge_src(es@[q])) > rank(
                            PartialNode::Inline(es@[q].2@),
                        ) by {
                            assert(done@[q]);
                        }
                        assert(edges_ranked(es@, rank));
                    }
                    return true;
                } else {
                    proof {
                        assert forall|rank: spec_fn(PartialNode) -> nat| !edges_ranked(es@, rank) by {
                            if edges_ranked(es@, rank) {
                                let m = lemma_least_open(es@, done@, rank, e as int);
                                let j = choose|j: int|
                                    0 <= j < es@.len() && edge_src(#[trigger] es@[j]) == edge_src(es@[m])
                                        && (!ready(es@, t@, PartialNode::Main(es@[j].2@)) || !ready(
                                        es@,
                                        t@,
                                        PartialNode::Inline(es@[j].2@),
                                    ));
                                let v = if !ready(es@, t@, PartialNode::Main(es@[j].2@)) {
                                    PartialNode::Main(es@[j].2@)
                                } else {
                                    PartialNode::Inline(es@[j].2@)
                                };
                                let k = choose|k: int| 0 <= k < es@.len() && edge_src(#[trigger] es@[k]) == v;
                                assert(!done@[k]);
                                assert(rank(edge_src(es@[j])) > rank(v));
                                assert(rank(edge_src(es@[m])) <= rank(edge_src(es@[k])));
                            }
                        }
                    }
                    return false;
                }
            },
            Some((i0, m)) => {
                let inline = es[i0].0;
                let name = es[i0].1.clone();
                let ghost u = node(inline, name@);
                let ghost t0 = t@;
                let ghost d0 = done@;
                assert(!in_table(t0, u));
                proof {
                    lemma_count_open_positive(d0, i0 as int);
                }
                let entry = (inline, name.clone(), m + 1);
                t.push(entry);
                proof {
                    assert forall|p: int| 0 <= p < t@.len() implies (#[trigger] t@[p]).2 <= t@.len() by {
                        if p < t0.len() {
                            assert(t@[p] == t0[p]);
                        }
                    }
                    assert(is_source(es@, u)) by {
                        assert(edge_src(es@[i0 as int]) == u);
                    }
                }
                let mut j: usize = 0;
                while j < e
                    invariant
                        j <= e == es@.len(),
                        done@.len() == e,
                        u == node(inline, name@),
                        forall|k: int|
                            0 <= k < e ==> (#[trigger] done@[k] <==> (d0[k] || (k < j && edge_src(es@[k]) == u))),
                    decreases e - j,
                {
                    proof {
                        lemma_node_eq(es@[j as int].0, es@[j as int].1@, inline, name@);
                    }
                    if es[j].0 == inline && es[j].1 == name {
                        done.set(j, true);
                    }
                    j = j + 1;
                }
                proof {
                    assert forall|k: int| 0 <= k < e && #[trigger] d0[k] implies done@[k] by {}
                    lemma_count_open_drops(d0, done@, i0 as int);
                    assert forall|v: PartialNode| in_table(t@, v) implies is_source(es@, v) by {
                        lemma_rank_in_push(t0, entry, v);
                    }
                    assert forall|k: int| 0 <= k < e implies (#[trigger] done@[k] <==> in_table(
                        t@,
                        edge_src(es@[k]),
                    )) by {
                        lemma_rank_in_push(t0, entry, edge_src(es@[k]));
                    }
                    assert forall|k: int|
                        0 <= k < e && #[trigger] done@[k] implies ready(es@, t@, PartialNode::Main(es@[k].2@))
                        && ready(es@, t@, PartialNode::Inline(es@[k].2@)) && rank_in(t@, edge_src(es@[k]))
                        > rank_in(t@, PartialNode::Main(es@[k].2@)) && rank_in(t@, edge_src(es@[k]))
                        > rank_in(t@, PartialNode::Inline(es@[k].2@)) by {
                        let a = PartialNode::Main(es@[k].2@);
                        let b = PartialNode::Inline(es@[k].2@);
                        lemma_rank_in_push(t0, entry, edge_src(es@[k]));
                        lemma_rank_in_push(t0, entry, a);
                        lemma_rank_in_push(t0, entry, b);
                        lemma_rank_in_push(t0, entry, u);
                        if !d0[k] {
                            assert(edge_src(es@[k]) == u);
                        }
                    }
                }
            },
        }
    }
}

} // verus!
