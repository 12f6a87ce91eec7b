//! The shortcode engine: it finds `{{ name }}` tags and `{% include "path" %}`
//! commands in a template and replaces them, rescanning what it put in.

use crate::error::Error;
use crate::text::{skip_white_space, substring, to_chars, trim, trim_bounds, trim_start, TextMap};
use vstd::prelude::*;
use vstd::string::StringExecFns;
use vstd::utf8::{encode_scalar, encode_utf8};

verus! {

/// The two kinds of delimiters that enclose a shortcode.
#[derive(Clone, Copy, Debug, PartialEq, Eq, Structural)]
pub enum Delimiter {
    /// `{{` and `}}`.
    Tag,
    /// `{%` and `%}`.
    Command,
}

/// Whether the opening delimiter of `kind` stands at index `p` of `t`.
pub open spec fn opens_at(t: Seq<char>, p: int, kind: Delimiter) -> bool {
    &&& 0 <= p
    &&& p + 1 < t.len()
    &&& t[p] == '{'
    &&& t[p + 1] == match kind {
        Delimiter::Tag => '{',
        Delimiter::Command => '%',
    }
}

/// Whether the closing delimiter of `kind` stands at index `q` of `t`.
pub open spec fn closes_at(t: Seq<char>, q: int, kind: Delimiter) -> bool {
    &&& 0 <= q
    &&& q + 1 < t.len()
    &&& t[q + 1] == '}'
    &&& t[q] == match kind {
        Delimiter::Tag => '}',
        Delimiter::Command => '%',
    }
}

/// The index of the first closing delimiter of `kind` at or after `k`.
pub open spec fn first_close(t: Seq<char>, k: int, kind: Delimiter) -> Option<int>
    decreases t.len() - k,
{
    if k < 0 || k + 1 >= t.len() {
        None
    } else if closes_at(t, k, kind) {
        Some(k)
    } else {
        first_close(t, k + 1, kind)
    }
}

/// The end of the shortcode that starts at `p`, if one does: the index just
/// after the first closing delimiter that follows the opening one.
pub open spec fn span_end(t: Seq<char>, p: int) -> Option<int> {
    if opens_at(t, p, Delimiter::Tag) {
        match first_close(t, p + 2, Delimiter::Tag) {
            Some(q) => Some(q + 2),
            None => None,
        }
    } else if opens_at(t, p, Delimiter::Command) {
        match first_close(t, p + 2, Delimiter::Command) {
            Some(q) => Some(q + 2),
            None => None,
        }
    } else {
        None
    }
}

/// The first shortcode that starts at or after `p`, as start and end index.
pub open spec fn find_span_from(t: Seq<char>, p: int) -> Option<(int, int)>
    decreases t.len() - p,
{
    if p < 0 || p >= t.len() {
        None
    } else {
        match span_end(t, p) {
            Some(e) => Some((p, e)),
            None => find_span_from(t, p + 1),
        }
    }
}

/// The first shortcode of `t`: the leftmost opening delimiter that is followed
/// by its closing delimiter, up to the first such closing delimiter. An opening
/// delimiter that is never closed is text.
pub open spec fn find_span(t: Seq<char>) -> Option<(int, int)> {
    find_span_from(t, 0)
}

/// The number of bytes that `s` takes in UTF-8.
pub open spec fn utf8_len(s: Seq<char>) -> nat {
    encode_utf8(s).len()
}

pub proof fn lemma_first_close_bounds(t: Seq<char>, k: int, kind: Delimiter)
    ensures
        first_close(t, k, kind) matches Some(q) ==> k <= q && q + 2 <= t.len() && closes_at(
            t,
            q,
            kind,
        ),
    decreases t.len() - k,
{
    if k < 0 || k + 1 >= t.len() {
    } else if closes_at(t, k, kind) {
    } else {
        lemma_first_close_bounds(t, k + 1, kind);
    }
}

/// A shortcode lies inside the text, begins with `{` and holds at least its
/// two delimiters.
pub proof fn lemma_find_span_bounds(t: Seq<char>, p: int)
    ensures
        find_span_from(t, p) matches Some((i, j)) ==> p <= i && i + 4 <= j <= t.len() && t[i] == '{'
            && span_end(t, i) == Some(j),
    decreases t.len() - p,
{
    if p < 0 || p >= t.len() {
    } else {
        match span_end(t, p) {
            Some(e) => {
                lemma_first_close_bounds(t, p + 2, Delimiter::Tag);
                lemma_first_close_bounds(t, p + 2, Delimiter::Command);
            },
            None => {
                lemma_find_span_bounds(t, p + 1);
            },
        }
    }
}

/// No shortcode starts before the one that is found, and none anywhere if
/// none is found: the search passes over `p` only where no shortcode starts.
pub proof fn lemma_find_span_leftmost(t: Seq<char>, from: int, p: int)
    requires
        0 <= from <= p,
        find_span_from(t, from) matches Some((i, _)) ==> p < i,
    ensures
        span_end(t, p) is None,
    decreases p - from,
{
    if from < t.len() {
        lemma_find_span_bounds(t, from);
        if from < p {
            lemma_find_span_leftmost(t, from + 1, p);
        }
    } else {
        lemma_first_close_bounds(t, p + 2, Delimiter::Tag);
        lemma_first_close_bounds(t, p + 2, Delimiter::Command);
    }
}

/// The UTF-8 encoding of a concatenation is the concatenation of the encodings.
pub proof fn lemma_encode_utf8_concat(a: Seq<char>, b: Seq<char>)
    ensures
        encode_utf8(a + b) =~= encode_utf8(a) + encode_utf8(b),
    decreases a.len(),
{
    if a.len() == 0 {
        assert(a + b =~= b);
    } else {
        assert((a + b).drop_first() =~= a.drop_first() + b);
        lemma_encode_utf8_concat(a.drop_first(), b);
    }
}

/// The bytes of `s` between the byte offsets of the characters `i` and `j`
/// are the encoding of the characters from `i` up to `j`: the offsets that
/// `find_shortcode` returns cut the shortcode out of the input.
pub proof fn lemma_span_bytes(s: Seq<char>, i: int, j: int)
    requires
        0 <= i <= j <= s.len(),
    ensures
        utf8_len(s.take(i)) <= utf8_len(s.take(j)) <= utf8_len(s),
        encode_utf8(s).subrange(utf8_len(s.take(i)) as int, utf8_len(s.take(j)) as int)
            == encode_utf8(s.subrange(i, j)),
{
    lemma_encode_utf8_concat(s.take(i), s.subrange(i, j));
    lemma_encode_utf8_concat(s.take(j), s.skip(j));
    assert(s.take(i) + s.subrange(i, j) =~= s.take(j));
    assert(s.take(j) + s.skip(j) =~= s);
    assert(encode_utf8(s).subrange(utf8_len(s.take(i)) as int, utf8_len(s.take(j)) as int)
        =~= encode_utf8(s.subrange(i, j)));
}

/// The number of bytes that `c` takes in UTF-8.
fn char_width(c: char) -> (w: usize)
    ensures
        w == encode_scalar(c as u32).len(),
        1 <= w <= 4,
{
    let u: u32 = c as u32;
    if u <= 0x7F {
        1
    } else if u <= 0x7FF {
        2
    } else if u <= 0xFFFF {
        3
    } else {
        4
    }
}

/// The byte offset in `s` of the character with index `i`.
fn byte_offset(s: &str, v: &Vec<char>, i: usize) -> (r: usize)
    requires
        v@ == s@,
        i <= v.len(),
    ensures
        r == utf8_len(s@.take(i as int)),
{
    let total: usize = s.as_bytes().len();
    let mut r: usize = 0;
    let mut k: usize = 0;
    proof {
        assert(s@.take(0) =~= Seq::<char>::empty());
    }
    while k < i
        invariant
            k <= i <= v.len(),
            v@ == s@,
            r == utf8_len(s@.take(k as int)),
            total == utf8_len(s@),
        decreases i - k,
    {
        let w = char_width(v[k]);
        proof {
            let head = s@.take(k as int);
            let next = s@.take(k + 1);
            let tail = s@.skip(k + 1);
            assert(next =~= head + seq![s@[k as int]]);
            lemma_encode_utf8_concat(head, seq![s@[k as int]]);
            assert(seq![s@[k as int]].drop_first() =~= Seq::<char>::empty());
            assert(encode_utf8(seq![s@[k as int]]) =~= encode_scalar(s@[k as int] as u32)) by {
                reveal_with_fuel(encode_utf8, 2);
            }
            assert(s@ =~= next + tail);
            lemma_encode_utf8_concat(next, tail);
        }
        r = r + w;
        k += 1;
    }
    r
}

/// Finds the first shortcode of `v` as character indices.
pub fn find_span_chars(v: &Vec<char>) -> (r: Option<(usize, usize)>)
    ensures
        match r {
            Some((i, j)) => find_span(v@) == Some((i as int, j as int)) && i + 4 <= j <= v.len(),
            None => find_span(v@) is None,
        },
{
    let n = v.len();
    let mut p: usize = 0;
    while p < n
        invariant
            p <= n == v.len(),
            find_span(v@) == find_span_from(v@, p as int),
        decreases n - p,
    {
        if v[p] == '{' && p + 1 < n && (v[p + 1] == '{' || v[p + 1] == '%') {
            let kind = if v[p + 1] == '{' {
                Delimiter::Tag
            } else {
                Delimiter::Command
            };
            let close = match kind {
                Delimiter::Tag => '}',
                Delimiter::Command => '%',
            };
            let mut q: usize = p + 2;
            let mut found = false;
            while !found && n - q > 1
                invariant
                    p + 2 <= q,
                    n == v.len(),
                    q <= n,
                    close == match kind {
                        Delimiter::Tag => '}',
                        Delimiter::Command => '%',
                    },
                    !found ==> first_close(v@, p + 2, kind) == first_close(v@, q as int, kind),
                    found ==> first_close(v@, p + 2, kind) == Some(q as int) && q + 2 <= n,
                decreases n - q + (if found { 0int } else { 1int }),
            {
                if v[q] == close && v[q + 1] == '}' {
                    found = true;
                } else {
                    q += 1;
                }
            }
            if found {
                return Some((p, q + 2));
            }
        }
        p += 1;
    }
    None
}

/// Find a shortcode within the given input.
///
/// Returns the start and end of the first shortcode, delimiters included, as
/// byte offsets into `input`, so that `&input[start..end]` is the shortcode.
pub fn find_shortcode(input: &str) -> (r: Option<(usize, usize)>)
    ensures
        match r {
            Some((start, end)) => find_span(input@) matches Some((i, j)) && start == utf8_len(
                input@.take(i),
            ) && end == utf8_len(input@.take(j)),
            None => find_span(input@) is None,
        },
{
    let v = to_chars(input);
    match find_span_chars(&v) {
        Some((i, j)) => Some((byte_offset(input, &v, i), byte_offset(input, &v, j))),
        None => None,
    }
}


/// Variable context for tags: the text that each variable stands for.
pub type Context = TextMap;

/// The template files that have been read, by their path below the templates
/// directory.
pub type TemplateCache = TextMap;

/// A parsed shortcode.
#[derive(Debug, PartialEq, Eq)]
pub enum Shortcode {
    /// `{% include "path" %}`: stands for the contents of the file at `path`
    /// below the templates directory.
    Include(String),
    /// `{{ name }}`: stands for what the context binds `name` to.
    Tag(String),
}

/// What a `Shortcode` holds, as plain text.
pub enum ShortcodeView {
    Include(Seq<char>),
    Tag(Seq<char>),
}

impl View for Shortcode {
    type V = ShortcodeView;

    open spec fn view(&self) -> ShortcodeView {
        match self {
            Shortcode::Include(path) => ShortcodeView::Include(path@),
            Shortcode::Tag(name) => ShortcodeView::Tag(name@),
        }
    }
}

/// What stands between the delimiters of `kind`, if `s` begins and ends with
/// them.
pub open spec fn enclosed(s: Seq<char>, kind: Delimiter) -> Option<Seq<char>> {
    if s.len() >= 4 && opens_at(s, 0, kind) && closes_at(s, s.len() - 2, kind) {
        Some(s.subrange(2, s.len() - 2))
    } else {
        None
    }
}

/// The word that an include command begins with.
pub open spec fn include_keyword() -> Seq<char> {
    seq!['i', 'n', 'c', 'l', 'u', 'd', 'e']
}

/// The path of an include command, given the text between its delimiters: the
/// keyword, optional white space, and the path in double quotes.
pub open spec fn command_path(inner: Seq<char>) -> Option<Seq<char>> {
    let body = trim(inner);
    if body.len() >= 7 && body.subrange(0, 7) == include_keyword() {
        let quoted = trim_start(body.subrange(7, body.len() as int));
        if quoted.len() >= 2 && quoted[0] == '"' && quoted.last() == '"' {
            Some(quoted.subrange(1, quoted.len() - 1))
        } else {
            None
        }
    } else {
        None
    }
}

/// The shortcode that the text `s`, delimiters included, stands for.
pub open spec fn parse_shortcode(s: Seq<char>) -> Option<ShortcodeView> {
    match enclosed(s, Delimiter::Tag) {
        Some(inner) => Some(ShortcodeView::Tag(trim(inner))),
        None => match enclosed(s, Delimiter::Command) {
            Some(inner) => match command_path(inner) {
                Some(path) => Some(ShortcodeView::Include(path)),
                None => None,
            },
            None => None,
        },
    }
}

impl Shortcode {
    /// Parses the text of one shortcode, delimiters included.
    ///
    /// Text that is neither a tag nor an include command with a quoted path
    /// is refused with `Error::ParseShortcode`, which carries the text.
    pub fn parse(input: &str) -> (r: Result<Shortcode, Error>)
        ensures
            match r {
                Ok(code) => parse_shortcode(input@) == Some(code@),
                Err(Error::ParseShortcode(text)) => parse_shortcode(input@) is None && text@
                    == input@,
                Err(_) => false,
            },
    {
        let v = to_chars(input);
        let n = v.len();
        if n >= 4 && v[0] == '{' && v[n - 1] == '}' {
            if v[1] == '{' && v[n - 2] == '}' {
                let (a, b) = trim_bounds(&v, 2, n - 2);
                return Ok(Shortcode::Tag(substring(input, a, b)));
            }
            if v[1] == '%' && v[n - 2] == '%' {
                let (a, b) = trim_bounds(&v, 2, n - 2);
                let ghost body = v@.subrange(a as int, b as int);
                if b - a >= 7 && v[a] == 'i' && v[a + 1] == 'n' && v[a + 2] == 'c' && v[a + 3]
                    == 'l' && v[a + 4] == 'u' && v[a + 5] == 'd' && v[a + 6] == 'e' {
                    assert(body.subrange(0, 7) =~= include_keyword());
                    let c = skip_white_space(&v, a + 7, b);
                    assert(body.subrange(7, body.len() as int) =~= v@.subrange(a + 7, b as int));
                    assert(trim_start(v@.subrange(a + 7, b as int)) =~= v@.subrange(
                        c as int,
                        b as int,
                    ));
                    if b - c >= 2 && v[c] == '"' && v[b - 1] == '"' {
                        assert(v@.subrange(c as int, b as int).subrange(1, b - c - 1)
                            =~= v@.subrange(c + 1, b - 1));
                        return Ok(Shortcode::Include(substring(input, c + 1, b - 1)));
                    }
                } else {
                    assert(body.len() >= 7 ==> body.subrange(0, 7) != include_keyword()) by {
                        if body.len() >= 7 && body.subrange(0, 7) == include_keyword() {
                            assert(body.subrange(0, 7)[0] == 'i');
                            assert(body.subrange(0, 7)[1] == 'n');
                            assert(body.subrange(0, 7)[2] == 'c');
                            assert(body.subrange(0, 7)[3] == 'l');
                            assert(body.subrange(0, 7)[4] == 'u');
                            assert(body.subrange(0, 7)[5] == 'd');
                            assert(body.subrange(0, 7)[6] == 'e');
                        }
                    }
                }
            }
        }
        Err(Error::ParseShortcode(input.to_owned()))
    }
}

/// What a shortcode is replaced by.
#[derive(Debug, PartialEq, Eq)]
pub enum Replacement {
    /// This text.
    Text(String),
    /// The contents of the file at this path below the templates directory.
    File(String),
}

impl Shortcode {
    /// Resolves the shortcode against the context.
    ///
    /// A tag becomes the text that the context binds its name to, and fails
    /// with `Error::TagNotFound` where the name is not bound. An include
    /// command becomes the file it names.
    pub fn to_html(&self, ctx: &Context) -> (r: Result<Replacement, Error>)
        ensures
            match self@ {
                ShortcodeView::Include(path) => r matches Ok(Replacement::File(p)) && p@ == path,
                ShortcodeView::Tag(name) => if ctx@.contains_key(name) {
                    r matches Ok(Replacement::Text(value)) && value@ == ctx@[name]
                } else {
                    r matches Err(Error::TagNotFound(missing)) && missing@ == name
                },
            },
    {
        match self {
            Shortcode::Include(path) => Ok(Replacement::File(path.clone())),
            Shortcode::Tag(name) => match ctx.get(name.as_str()) {
                Some(value) => Ok(Replacement::Text(value.clone())),
                None => Err(Error::TagNotFound(name.clone())),
            },
        }
    }
}


/// Why an expansion stops without a result.
pub enum ExpandError {
    /// This shortcode text could not be parsed.
    Parse(Seq<char>),
    /// The context binds nothing to this name.
    TagNotFound(Seq<char>),
    /// The file at this path could not be had.
    Include(Seq<char>),
}

/// What one step of the engine does to the output so far (`html`) and the text
/// still to be scanned (`rest`).
pub enum StepView {
    /// No shortcode is left: this is the finished output.
    Done(Seq<char>),
    /// A tag was replaced: the new output and the new text to scan.
    Expanded(Seq<char>, Seq<char>),
    /// An include command was found: the path, the new output, and the text
    /// that follows the command.
    Include(Seq<char>, Seq<char>, Seq<char>),
    /// The first shortcode cannot be parsed or resolved.
    Failed(ExpandError),
}

/// One step of the engine. The text before the first shortcode moves to the
/// output unchanged; a tag's value is put in front of the text that follows
/// the tag, so that it is scanned in turn.
pub open spec fn step_spec(ctx: Map<Seq<char>, Seq<char>>, html: Seq<char>, rest: Seq<char>)
    -> StepView {
    match find_span(rest) {
        None => StepView::Done(html + rest),
        Some((i, j)) => match parse_shortcode(rest.subrange(i, j)) {
            None => StepView::Failed(ExpandError::Parse(rest.subrange(i, j))),
            Some(ShortcodeView::Tag(name)) => if ctx.contains_key(name) {
                StepView::Expanded(
                    html + rest.subrange(0, i),
                    ctx[name] + rest.subrange(j, rest.len() as int),
                )
            } else {
                StepView::Failed(ExpandError::TagNotFound(name))
            },
            Some(ShortcodeView::Include(path)) => StepView::Include(
                path,
                html + rest.subrange(0, i),
                rest.subrange(j, rest.len() as int),
            ),
        },
    }
}

/// The outcome of running the engine on the state `html`, `rest` for at most
/// `fuel` replacements, with `files` as the contents of the templates
/// directory: `None` where `fuel` replacements do not finish it.
pub open spec fn expand(
    ctx: Map<Seq<char>, Seq<char>>,
    files: Map<Seq<char>, Seq<char>>,
    html: Seq<char>,
    rest: Seq<char>,
    fuel: nat,
) -> Option<Result<Seq<char>, ExpandError>>
    decreases fuel,
{
    match step_spec(ctx, html, rest) {
        StepView::Done(out) => Some(Ok(out)),
        StepView::Failed(e) => Some(Err(e)),
        StepView::Expanded(h, r) => if fuel == 0 {
            None
        } else {
            expand(ctx, files, h, r, (fuel - 1) as nat)
        },
        StepView::Include(path, h, r) => if !files.contains_key(path) {
            Some(Err(ExpandError::Include(path)))
        } else if fuel == 0 {
            None
        } else {
            expand(ctx, files, h, files[path] + r, (fuel - 1) as nat)
        },
    }
}

/// Whether the engine, run on the template `input`, comes to an end.
pub open spec fn terminates(
    ctx: Map<Seq<char>, Seq<char>>,
    files: Map<Seq<char>, Seq<char>>,
    input: Seq<char>,
) -> bool {
    exists|fuel: nat| (#[trigger] expand(ctx, files, Seq::empty(), input, fuel)) is Some
}

/// Whether `r` is the outcome `x`.
pub open spec fn is_outcome(r: Result<String, Error>, x: Result<Seq<char>, ExpandError>) -> bool {
    match x {
        Ok(out) => r matches Ok(html) && html@ == out,
        Err(e) => r matches Err(err) && is_expand_error(err, e),
    }
}

/// Whether the error `err` reports `e`.
pub open spec fn is_expand_error(err: Error, e: ExpandError) -> bool {
    match e {
        ExpandError::Parse(text) => err matches Error::ParseShortcode(t) && t@ == text,
        ExpandError::TagNotFound(name) => err matches Error::TagNotFound(n) && n@ == name,
        ExpandError::Include(path) => err matches Error::IncludeShortcode(p, _) && p@ == path,
    }
}

/// An expansion under way: the output produced so far and the text that is
/// still to be scanned.
pub struct Expansion {
    pub html: String,
    pub rest: String,
}

/// What a step of an expansion came to.
pub enum Step {
    /// The expansion is finished; this is its output.
    Done(String),
    /// A tag was replaced; the expansion goes on from this state.
    Expanded(Expansion),
    /// The file at this path below the templates directory is wanted. Hand its
    /// contents to `Expansion::resume` on the state to go on.
    Include(String, Expansion),
}

/// Whether `r` is what `step_spec` describes as `x`.
pub open spec fn is_step(r: Result<Step, Error>, x: StepView) -> bool {
    match x {
        StepView::Done(out) => r matches Ok(Step::Done(html)) && html@ == out,
        StepView::Expanded(h, t) => r matches Ok(Step::Expanded(next)) && next.html@ == h
            && next.rest@ == t,
        StepView::Include(path, h, t) => r matches Ok(Step::Include(p, next)) && p@ == path
            && next.html@ == h && next.rest@ == t,
        StepView::Failed(e) => r matches Err(err) && is_expand_error(err, e),
    }
}

impl Expansion {
    /// The expansion of `input` before its first step.
    pub fn new(input: String) -> (state: Expansion)
        ensures
            state.html@ == Seq::<char>::empty(),
            state.rest@ == input@,
    {
        Expansion { html: String::new(), rest: input }
    }

    /// Handles the first shortcode of the text that is still to be scanned.
    ///
    /// One call replaces at most one shortcode, so it always returns: a
    /// context whose values refer to themselves makes the caller's loop run
    /// forever, not this function.
    pub fn step(self, ctx: &Context) -> (r: Result<Step, Error>)
        ensures
            is_step(r, step_spec(ctx@, self.html@, self.rest@)),
    {
        let Expansion { html, rest } = self;
        let mut html = html;
        let v = to_chars(rest.as_str());
        match find_span_chars(&v) {
            None => {
                html.append(rest.as_str());
                Ok(Step::Done(html))
            },
            Some((i, j)) => {
                let text = substring(rest.as_str(), i, j);
                let code = match Shortcode::parse(text.as_str()) {
                    Ok(code) => code,
                    Err(e) => {
                        return Err(e);
                    },
                };
                let before = substring(rest.as_str(), 0, i);
                let after = substring(rest.as_str(), j, v.len());
                match code.to_html(ctx) {
                    Err(e) => Err(e),
                    Ok(Replacement::Text(value)) => {
                        html.append(before.as_str());
                        let next = value.concat(after.as_str());
                        Ok(Step::Expanded(Expansion { html, rest: next }))
                    },
                    Ok(Replacement::File(path)) => {
                        html.append(before.as_str());
                        Ok(Step::Include(path, Expansion { html, rest: after }))
                    },
                }
            },
        }
    }

    /// Puts the contents of an included file in front of the text that is
    /// still to be scanned.
    pub fn resume(self, content: &str) -> (state: Expansion)
        ensures
            state.html@ == self.html@,
            state.rest@ == content@ + self.rest@,
    {
        let Expansion { html, rest } = self;
        let next = content.to_owned().concat(rest.as_str());
        Expansion { html, rest: next }
    }
}

/// Apply shortcodes to the input template.
///
/// Includes are taken from `files`; a path that `files` does not hold fails
/// with `Error::IncludeShortcode`. Replacements are scanned again, so the
/// caller has to see to it that no value or file leads back to itself: the
/// engine looks for no such cycle.
pub fn template(ctx: &Context, files: &TemplateCache, input: String) -> (r: Result<String, Error>)
    requires
        terminates(ctx@, files@, input@),
    ensures
        exists|fuel: nat|
            (#[trigger] expand(ctx@, files@, Seq::empty(), input@, fuel)) matches Some(x)
                && is_outcome(r, x),
{
    let ghost total: nat = choose|fuel: nat|
        (#[trigger] expand(ctx@, files@, Seq::empty(), input@, fuel)) is Some;
    let ghost mut fuel: nat = total;
    let mut state = Expansion::new(input);
    loop
        invariant
            expand(ctx@, files@, state.html@, state.rest@, fuel) is Some,
            expand(ctx@, files@, state.html@, state.rest@, fuel) == expand(
                ctx@,
                files@,
                Seq::empty(),
                input@,
                total,
            ),
        decreases fuel,
    {
        match state.step(ctx) {
            Err(e) => {
                return Err(e);
            },
            Ok(Step::Done(html)) => {
                return Ok(html);
            },
            Ok(Step::Expanded(next)) => {
                state = next;
            },
            Ok(Step::Include(path, next)) => {
                match files.get(path.as_str()) {
                    None => {
                        return Err(Error::IncludeShortcode(path, "not among the files".to_owned()));
                    },
                    Some(content) => {
                        state = next.resume(content.as_str());
                    },
                }
            },
        }
        proof {
            fuel = (fuel - 1) as nat;
        }
    }
}


/// Apply shortcodes to the input template, with at most `limit` replacements.
///
/// Returns `None` where `limit` replacements do not finish the template, as
/// they never do where a value or a file leads back to itself.
pub fn template_within(ctx: &Context, files: &TemplateCache, input: String, limit: usize) -> (r:
    Option<Result<String, Error>>)
    ensures
        match expand(ctx@, files@, Seq::empty(), input@, limit as nat) {
            Some(x) => r matches Some(outcome) && is_outcome(outcome, x),
            None => r is None,
        },
{
    let mut left: usize = limit;
    let mut state = Expansion::new(input);
    loop
        invariant
            expand(ctx@, files@, state.html@, state.rest@, left as nat) == expand(
                ctx@,
                files@,
                Seq::empty(),
                input@,
                limit as nat,
            ),
        decreases left,
    {
        match state.step(ctx) {
            Err(e) => {
                return Some(Err(e));
            },
            Ok(Step::Done(html)) => {
                return Some(Ok(html));
            },
            Ok(Step::Expanded(next)) => {
                if left == 0 {
                    return None;
                }
                state = next;
            },
            Ok(Step::Include(path, next)) => {
                match files.get(path.as_str()) {
                    None => {
                        return Some(
                            Err(Error::IncludeShortcode(path, "not among the files".to_owned())),
                        );
                    },
                    Some(content) => {
                        if left == 0 {
                            return None;
                        }
                        state = next.resume(content.as_str());
                    },
                }
            },
        }
        left -= 1;
    }
}

/// Text without an opening brace holds no shortcode.
pub proof fn lemma_no_brace_no_span(t: Seq<char>, p: int)
    requires
        forall|k: int| 0 <= k < t.len() ==> t[k] != '{',
    ensures
        find_span_from(t, p) is None,
    decreases t.len() - p,
{
    if 0 <= p < t.len() {
        lemma_no_brace_no_span(t, p + 1);
    }
}

/// A template that holds no shortcode is returned unchanged, whatever the
/// context and the files are.
pub proof fn lemma_literal_text_unchanged(
    ctx: Map<Seq<char>, Seq<char>>,
    files: Map<Seq<char>, Seq<char>>,
    input: Seq<char>,
    fuel: nat,
)
    requires
        find_span(input) is None,
    ensures
        expand(ctx, files, Seq::empty(), input, fuel) == Some(Ok::<Seq<char>, ExpandError>(input)),
{
    assert(Seq::<char>::empty() + input =~= input);
}

/// More fuel does not change an outcome: what the engine comes to does not
/// depend on how many steps it was allowed.
pub proof fn lemma_expand_fuel(
    ctx: Map<Seq<char>, Seq<char>>,
    files: Map<Seq<char>, Seq<char>>,
    html: Seq<char>,
    rest: Seq<char>,
    fuel: nat,
    more: nat,
)
    requires
        expand(ctx, files, html, rest, fuel) is Some,
        fuel <= more,
    ensures
        expand(ctx, files, html, rest, more) == expand(ctx, files, html, rest, fuel),
    decreases fuel,
{
    match step_spec(ctx, html, rest) {
        StepView::Done(_) => {},
        StepView::Failed(_) => {},
        StepView::Expanded(h, r) => {
            lemma_expand_fuel(ctx, files, h, r, (fuel - 1) as nat, (more - 1) as nat);
        },
        StepView::Include(path, h, r) => {
            if files.contains_key(path) {
                lemma_expand_fuel(
                    ctx,
                    files,
                    h,
                    files[path] + r,
                    (fuel - 1) as nat,
                    (more - 1) as nat,
                );
            }
        },
    }
}


impl core::str::FromStr for Shortcode {
    type Err = Error;

    /// Parses the text of one shortcode, as `Shortcode::parse` does.
    fn from_str(input: &str) -> (r: Result<Shortcode, Error>)
        ensures
            match r {
                Ok(code) => parse_shortcode(input@) == Some(code@),
                Err(Error::ParseShortcode(text)) => parse_shortcode(input@) is None && text@
                    == input@,
                Err(_) => false,
            },
    {
        Shortcode::parse(input)
    }
}


/// The literal text of a template, piece by piece: what stands before its
/// first shortcode, between its shortcodes, and behind the last one.
pub open spec fn literal_segments(t: Seq<char>) -> Seq<Seq<char>>
    decreases t.len(),
{
    match find_span(t) {
        Some((i, j)) => if 0 <= i && 0 < j <= t.len() {
            seq![t.subrange(0, i)] + literal_segments(t.subrange(j, t.len() as int))
        } else {
            seq![t]
        },
        None => seq![t],
    }
}

/// `head`, then `inserted`, then `tail`.
pub open spec fn weave(head: Seq<char>, inserted: Seq<char>, tail: Seq<char>) -> Seq<char> {
    head + inserted + tail
}

/// Whether `out` is the pieces of `segments` in their order, with some text
/// put in between each two of them.
pub open spec fn woven(segments: Seq<Seq<char>>, out: Seq<char>) -> bool
    decreases segments.len(),
{
    if segments.len() == 0 {
        false
    } else if segments.len() == 1 {
        out == segments[0]
    } else {
        exists|inserted: Seq<char>, tail: Seq<char>|
            out == #[trigger] weave(segments[0], inserted, tail) && woven(
                segments.drop_first(),
                tail,
            )
    }
}

/// How much of the text to scan comes from replacements, after a shortcode
/// that ends at `j` was replaced by a text of length `value_len`, when the
/// first `pending` characters came from replacements before.
pub open spec fn pending_after(pending: int, j: int, value_len: int) -> int {
    value_len + if j <= pending {
        pending - j
    } else {
        0
    }
}

/// Whether, in the run of the engine on `rest`, of which the first `pending`
/// characters were put in by replacements, no shortcode is ever made up
/// partly of replaced text and partly of the text that follows it in the
/// template.
pub open spec fn splices_cleanly(
    ctx: Map<Seq<char>, Seq<char>>,
    files: Map<Seq<char>, Seq<char>>,
    rest: Seq<char>,
    pending: int,
    fuel: nat,
) -> bool
    decreases fuel,
{
    match find_span(rest) {
        None => true,
        Some((i, j)) => (j <= pending || pending <= i) && match step_spec(
            ctx,
            Seq::empty(),
            rest,
        ) {
            StepView::Expanded(_, r) => fuel > 0 ==> splices_cleanly(
                ctx,
                files,
                r,
                pending_after(pending, j, r.len() - (rest.len() - j)),
                (fuel - 1) as nat,
            ),
            StepView::Include(path, _, r) => fuel > 0 && files.contains_key(path)
                ==> splices_cleanly(
                ctx,
                files,
                files[path] + r,
                pending_after(pending, j, files[path].len() as int),
                (fuel - 1) as nat,
            ),
            _ => true,
        },
    }
}

/// A closing delimiter is found in a text as in the text with something put
/// in front of it.
proof fn lemma_first_close_shift(r: Seq<char>, p: int, k: int, kind: Delimiter)
    requires
        0 <= p <= k,
        p <= r.len(),
    ensures
        first_close(r, k, kind) == match first_close(r.skip(p), k - p, kind) {
            Some(q) => Some(q + p),
            None => None,
        },
    decreases r.len() - k,
{
    let t = r.skip(p);
    if k + 1 >= r.len() {
    } else {
        assert(t[k - p] == r[k] && t[k - p + 1] == r[k + 1]);
        if !closes_at(r, k, kind) {
            lemma_first_close_shift(r, p, k + 1, kind);
        }
    }
}

/// A shortcode is found in a text as in the text with something put in
/// front of it, as long as the search starts behind what was put in front.
proof fn lemma_find_span_shift(r: Seq<char>, p: int, k: int)
    requires
        0 <= p <= k,
        p <= r.len(),
    ensures
        find_span_from(r, k) == match find_span_from(r.skip(p), k - p) {
            Some((i, j)) => Some((i + p, j + p)),
            None => None,
        },
    decreases r.len() - k,
{
    let t = r.skip(p);
    if k >= r.len() {
    } else {
        if k + 1 < r.len() {
            assert(t[k - p] == r[k] && t[k - p + 1] == r[k + 1]);
        }
        lemma_first_close_shift(r, p, k + 2, Delimiter::Tag);
        lemma_first_close_shift(r, p, k + 2, Delimiter::Command);
        assert(span_end(r, k) == match span_end(t, k - p) {
            Some(e) => Some(e + p),
            None => None,
        });
        if span_end(r, k) is None {
            lemma_find_span_shift(r, p, k + 1);
        }
    }
}

/// The search for the first shortcode can start anywhere up to that
/// shortcode.
proof fn lemma_find_span_later(r: Seq<char>, a: int, b: int)
    requires
        0 <= a <= b,
        find_span_from(r, a) matches Some((i, _)) ==> b <= i,
    ensures
        find_span_from(r, b) == find_span_from(r, a) || (b > r.len() && find_span_from(r, a)
            is None),
    decreases b - a,
{
    if a < b && a < r.len() {
        lemma_find_span_bounds(r, a);
        lemma_find_span_later(r, a + 1, b);
    }
}

/// A template has at least one piece of literal text.
proof fn lemma_literal_segments_len(t: Seq<char>)
    ensures
        literal_segments(t).len() >= 1,
{
}

/// The text that takes the place of the first shortcode of `rest`.
pub open spec fn replacement(
    ctx: Map<Seq<char>, Seq<char>>,
    files: Map<Seq<char>, Seq<char>>,
    rest: Seq<char>,
) -> Seq<char> {
    let (i, j) = find_span(rest)->0;
    match parse_shortcode(rest.subrange(i, j)) {
        Some(ShortcodeView::Tag(name)) => ctx[name],
        Some(ShortcodeView::Include(path)) => files[path],
        None => Seq::empty(),
    }
}

/// A run that ends well and begins with a shortcode goes on, with one
/// replacement less to make, from the state that the replacement leaves.
proof fn lemma_run_goes_on(
    ctx: Map<Seq<char>, Seq<char>>,
    files: Map<Seq<char>, Seq<char>>,
    html: Seq<char>,
    rest: Seq<char>,
    pending: int,
    fuel: nat,
    out: Seq<char>,
)
    requires
        find_span(rest) is Some,
        expand(ctx, files, html, rest, fuel) == Some(Ok::<Seq<char>, ExpandError>(out)),
        splices_cleanly(ctx, files, rest, pending, fuel),
    ensures
        fuel > 0,
        ({
            let (i, j) = find_span(rest)->0;
            let value = replacement(ctx, files, rest);
            let next = value + rest.subrange(j, rest.len() as int);
            &&& j <= pending || pending <= i
            &&& expand(ctx, files, html + rest.subrange(0, i), next, (fuel - 1) as nat) == Some(
                Ok::<Seq<char>, ExpandError>(out),
            )
            &&& splices_cleanly(
                ctx,
                files,
                next,
                pending_after(pending, j, value.len() as int),
                (fuel - 1) as nat,
            )
        }),
{
    lemma_find_span_bounds(rest, 0);
    let (i, j) = find_span(rest)->0;
    let after = rest.subrange(j, rest.len() as int);
    let value = replacement(ctx, files, rest);
    assert((value + after).len() - (rest.len() - j) == value.len());
}

/// Where no shortcode is left, the rest of the template is its own literal
/// text.
proof fn lemma_weave_done(rest: Seq<char>, pending: int)
    requires
        0 <= pending <= rest.len(),
        find_span(rest) is None,
    ensures
        woven(literal_segments(rest.skip(pending)), rest.skip(pending)),
{
    lemma_find_span_shift(rest, pending, pending);
    lemma_find_span_later(rest, 0, pending);
    assert(find_span(rest.skip(pending)) is None);
}

/// Where the first shortcode lies behind the text that replacements put in,
/// it is the first shortcode of the template's own text, and the literal
/// text before it comes first in what is woven.
proof fn lemma_weave_behind(rest: Seq<char>, pending: int, x: Seq<char>, w: Seq<char>)
    requires
        find_span(rest) matches Some((i, j)) && 0 <= pending <= i && woven(
            literal_segments(rest.subrange(j, rest.len() as int)),
            w,
        ),
    ensures
        ({
            let (i, j) = find_span(rest)->0;
            woven(literal_segments(rest.skip(pending)), weave(rest.subrange(pending, i), x, w))
        }),
{
    let (i, j) = find_span(rest)->0;
    let t = rest.skip(pending);
    lemma_find_span_bounds(rest, 0);
    lemma_find_span_shift(rest, pending, pending);
    lemma_find_span_later(rest, 0, pending);
    assert(find_span(t) == Some((i - pending, j - pending)));
    let tail = t.subrange(j - pending, t.len() as int);
    assert(tail =~= rest.subrange(j, rest.len() as int));
    let head = t.subrange(0, i - pending);
    assert(head =~= rest.subrange(pending, i));
    let segments = literal_segments(t);
    lemma_literal_segments_len(tail);
    assert(segments == seq![head] + literal_segments(tail));
    assert(segments.drop_first() =~= literal_segments(tail));
    assert(segments[0] == head);
}

/// The output of a run is what was put out before, then text that comes from
/// replacements, then the literal text of the part of the template that was
/// still to be scanned, woven with replacements.
proof fn lemma_run_weaves(
    ctx: Map<Seq<char>, Seq<char>>,
    files: Map<Seq<char>, Seq<char>>,
    html: Seq<char>,
    rest: Seq<char>,
    pending: int,
    fuel: nat,
    out: Seq<char>,
) -> (r: (Seq<char>, Seq<char>))
    requires
        0 <= pending <= rest.len(),
        expand(ctx, files, html, rest, fuel) == Some(Ok::<Seq<char>, ExpandError>(out)),
        splices_cleanly(ctx, files, rest, pending, fuel),
    ensures
        out == html + r.0 + r.1,
        woven(literal_segments(rest.skip(pending)), r.1),
        pending == 0 ==> r.0 == Seq::<char>::empty(),
    decreases fuel,
{
    let t = rest.skip(pending);
    assert(rest.take(0) =~= Seq::<char>::empty());
    match find_span(rest) {
        None => {
            lemma_weave_done(rest, pending);
            assert(html + rest =~= html + rest.take(pending) + t);
            (rest.take(pending), t)
        },
        Some((i, j)) => {
            lemma_find_span_bounds(rest, 0);
            lemma_run_goes_on(ctx, files, html, rest, pending, fuel, out);
            let h = html + rest.subrange(0, i);
            let value = replacement(ctx, files, rest);
            let next = value + rest.subrange(j, rest.len() as int);
            let p = pending_after(pending, j, value.len() as int);
            let (x, w) = lemma_run_weaves(ctx, files, h, next, p, (fuel - 1) as nat, out);
            if j <= pending {
                assert(next.skip(p) =~= t);
                assert(html + (rest.subrange(0, i) + x) + w =~= h + x + w);
                (rest.subrange(0, i) + x, w)
            } else {
                assert(next.skip(p) =~= rest.subrange(j, rest.len() as int));
                lemma_weave_behind(rest, pending, x, w);
                let woven_out = weave(rest.subrange(pending, i), x, w);
                assert(html + rest.take(pending) + woven_out =~= h + x + w);
                (rest.take(pending), woven_out)
            }
        },
    }
}

/// The literal text of a template is in the output, piece by piece and in
/// its order: the output is that text with replacements put in where the
/// shortcodes stood. This holds of every run in which no replacement joins
/// the text that follows it into a new shortcode.
pub proof fn lemma_literal_text_preserved(
    ctx: Map<Seq<char>, Seq<char>>,
    files: Map<Seq<char>, Seq<char>>,
    input: Seq<char>,
    fuel: nat,
    out: Seq<char>,
)
    requires
        expand(ctx, files, Seq::empty(), input, fuel) == Some(Ok::<Seq<char>, ExpandError>(out)),
        splices_cleanly(ctx, files, input, 0, fuel),
    ensures
        woven(literal_segments(input), out),
{
    let (x, w) = lemma_run_weaves(ctx, files, Seq::empty(), input, 0, fuel, out);
    assert(input.skip(0) =~= input);
    assert(Seq::<char>::empty() + x + w =~= w);
}

/// Whether no character of `s` is an opening brace.
pub open spec fn brace_free(s: Seq<char>) -> bool {
    forall|k: int| 0 <= k < s.len() ==> s[k] != '{'
}

/// Whether every shortcode of `t`, from left to right, is a tag that `ctx`
/// binds to text without an opening brace.
pub open spec fn is_flat(ctx: Map<Seq<char>, Seq<char>>, t: Seq<char>) -> bool
    decreases t.len(),
{
    match find_span(t) {
        None => true,
        Some((i, j)) => {
            &&& 0 <= i
            &&& 0 < j <= t.len()
            &&& parse_shortcode(t.subrange(i, j)) matches Some(ShortcodeView::Tag(name))
            &&& ctx.contains_key(name)
            &&& brace_free(ctx[name])
            &&& is_flat(ctx, t.subrange(j, t.len() as int))
        },
    }
}

/// The number of shortcodes of `t`, from left to right.
pub open spec fn shortcode_count(t: Seq<char>) -> nat
    decreases t.len(),
{
    match find_span(t) {
        Some((i, j)) => if 0 <= i && 0 < j <= t.len() {
            1 + shortcode_count(t.subrange(j, t.len() as int))
        } else {
            0
        },
        None => 0,
    }
}

/// `t` with each of its tags, from left to right, replaced by what `ctx`
/// binds its name to.
pub open spec fn substituted(ctx: Map<Seq<char>, Seq<char>>, t: Seq<char>) -> Seq<char>
    decreases t.len(),
{
    match find_span(t) {
        Some((i, j)) => if 0 <= i && 0 < j <= t.len() {
            t.subrange(0, i) + replacement(ctx, Map::empty(), t) + substituted(
                ctx,
                t.subrange(j, t.len() as int),
            )
        } else {
            t
        },
        None => t,
    }
}

/// No shortcode starts in a part of the text that holds no opening brace.
proof fn lemma_brace_free_prefix(r: Seq<char>, p: int, k: int)
    requires
        0 <= k <= p <= r.len(),
        brace_free(r.take(p)),
    ensures
        find_span_from(r, k) == find_span_from(r, p),
    decreases p - k,
{
    if k < p {
        assert(r.take(p)[k] == r[k]);
        lemma_brace_free_prefix(r, p, k + 1);
    }
}

/// The run on a flat template behind text without an opening brace makes
/// one replacement for each tag, never joins a value to the text behind it,
/// and puts out the template with its tags replaced.
proof fn lemma_flat_run(
    ctx: Map<Seq<char>, Seq<char>>,
    files: Map<Seq<char>, Seq<char>>,
    html: Seq<char>,
    rest: Seq<char>,
    pending: int,
)
    requires
        0 <= pending <= rest.len(),
        brace_free(rest.take(pending)),
        is_flat(ctx, rest.skip(pending)),
    ensures
        expand(ctx, files, html, rest, shortcode_count(rest.skip(pending))) == Some(
            Ok::<Seq<char>, ExpandError>(
                html + rest.take(pending) + substituted(ctx, rest.skip(pending)),
            ),
        ),
        splices_cleanly(ctx, files, rest, pending, shortcode_count(rest.skip(pending))),
    decreases rest.len() - pending,
{
    let t = rest.skip(pending);
    lemma_brace_free_prefix(rest, pending, 0);
    lemma_find_span_shift(rest, pending, pending);
    match find_span(t) {
        None => {
            assert(html + rest =~= html + rest.take(pending) + t);
        },
        Some((i, j)) => {
            lemma_find_span_bounds(t, 0);
            let a = i + pending;
            let b = j + pending;
            assert(find_span(rest) == Some((a, b)));
            assert(rest.subrange(a, b) =~= t.subrange(i, j));
            let name = parse_shortcode(t.subrange(i, j))->0->Tag_0;
            let value = ctx[name];
            let after = rest.subrange(b, rest.len() as int);
            let next = value + after;
            let h = html + rest.subrange(0, a);
            assert(after =~= t.subrange(j, t.len() as int));
            assert(next.take(value.len() as int) =~= value);
            assert(next.skip(value.len() as int) =~= after);
            lemma_flat_run(ctx, files, h, next, value.len() as int);
            assert(replacement(ctx, Map::empty(), t) == value);
            assert(h + value + substituted(ctx, after) =~= html + rest.take(pending) + (t.subrange(
                0,
                i,
            ) + value + substituted(ctx, after)));
            assert(next.len() - (rest.len() - b) == value.len());
        },
    }
}

/// A template whose shortcodes are all tags, bound to values without an
/// opening brace, expands to itself with each tag replaced by its value:
/// the run ends, and the output is the literal text of the template, piece
/// by piece and in order, with the values in between.
pub proof fn lemma_flat_template(
    ctx: Map<Seq<char>, Seq<char>>,
    files: Map<Seq<char>, Seq<char>>,
    input: Seq<char>,
)
    requires
        is_flat(ctx, input),
    ensures
        expand(ctx, files, Seq::empty(), input, shortcode_count(input)) == Some(
            Ok::<Seq<char>, ExpandError>(substituted(ctx, input)),
        ),
        terminates(ctx, files, input),
        woven(literal_segments(input), substituted(ctx, input)),
{
    assert(input.skip(0) =~= input);
    assert(input.take(0) =~= Seq::<char>::empty());
    lemma_flat_run(ctx, files, Seq::empty(), input, 0);
    assert(Seq::<char>::empty() + input.take(0) + substituted(ctx, input) =~= substituted(
        ctx,
        input,
    ));
    lemma_literal_text_preserved(
        ctx,
        files,
        input,
        shortcode_count(input),
        substituted(ctx, input),
    );
}

} // verus!
