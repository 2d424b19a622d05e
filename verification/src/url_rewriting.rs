//! Conversion of manifests containing absolute URLs into manifests containing
//! only proxy-relative URLs. A rewritten reference carries the original URL as
//! a base64 path segment after a fixed prefix segment; the URL's own path is
//! appended verbatim as a human-readable suffix with no semantic weight.

use vstd::prelude::*;

use crate::codec::{b64_encode, b64enc, is_b64url_char, seg_ok};
use crate::urls::{accepts_url, url_canon, url_path, AbsoluteUrl};

verus! {

/// The fixed prefix segment, as a character sequence.
pub open spec fn prefix_chars() -> Seq<char> {
    "relative_to_absolute_proxy_path"@
}

/// The prefix segment constant: the path segment that marks an encoded
/// absolute-URL reference. It must never collide with a real path segment on
/// the base URL.
pub fn url_rewriting_prefix() -> (r: &'static str)
    ensures
        r@ == prefix_chars(),
{
    "relative_to_absolute_proxy_path"
}

/// The proxy-relative reference that stands for the absolute URL whose
/// canonical serialization is `text`: `/<prefix>/<payload><origin-path>`.
pub open spec fn encoded_ref(text: Seq<char>) -> Seq<char> {
    seq!['/'] + prefix_chars() + seq!['/'] + b64enc(text) + url_path(text)
}

/// The reason `rewrite_url` rejects an input.
#[derive(Debug, Clone, Copy, PartialEq, Eq, Structural)]
pub enum RewriteUrlError {
    /// The input is not an absolute URL with a host (it is relative, or
    /// otherwise malformed).
    NotAbsolute,
}

/// Returns a new relative URL from an absolute one, containing the original
/// URL as a path segment after the fixed prefix segment.
///
/// Returns an error if and only if the given string is not an absolute URL
/// with a host.
pub fn rewrite_url(url: &str) -> (r: Result<String, RewriteUrlError>)
    ensures
        r is Ok <==> accepts_url(url@),
        url@.len() > 0 && url@[0] == '/' ==> r is Err,
        r matches Ok(s) ==> s@ == encoded_ref(url_canon(url@)),
        r matches Ok(s) ==> seg_ok(b64enc(url_canon(url@))),
        r matches Ok(s) ==> s@.len() > 0 && (forall|i: int| 0 <= i < s@.len() ==> s@[i] != '\n'),
{
    match AbsoluteUrl::parse(url) {
        Some(u) => {
            proof {
                crate::urls::lemma_valid_props(u);
            }
            let payload = b64_encode(u.as_str());
            let mut out = String::from_str("/");
            out.append(url_rewriting_prefix());
            out.append("/");
            out.append(payload.as_str());
            out.append(u.path());
            proof {
                reveal_strlit("/");
                assert(out@ =~= encoded_ref(url_canon(url@)));
                lemma_prefix_chars_plain();
                let pre = prefix_chars();
                assert(!is_b64url_char('\n'));
                assert forall|i: int| 0 <= i < out@.len() implies out@[i] != '\n' by {
                    if i == 0 {
                        assert(out@[i] == '/');
                    } else if i <= pre.len() {
                        assert(out@[i] == pre[i - 1]);
                    } else if i == pre.len() + 1 {
                        assert(out@[i] == '/');
                    } else if i < pre.len() + 2 + payload@.len() {
                        assert(out@[i] == payload@[i - pre.len() - 2]);
                        assert(is_b64url_char(payload@[i - pre.len() - 2]));
                    } else {
                        assert(out@[i] == u@.path[i - pre.len() - 2 - payload@.len()]);
                    }
                }
            }
            Ok(out)
        }
        None => Err(RewriteUrlError::NotAbsolute),
    }
}

/// The prefix segment is an ordinary path segment: it contains neither `/`
/// nor a newline, and it is 31 characters long.
pub(crate) proof fn lemma_prefix_chars_plain()
    ensures
        forall|k: int| 0 <= k < prefix_chars().len() ==> prefix_chars()[k] != '/',
        forall|k: int| 0 <= k < prefix_chars().len() ==> prefix_chars()[k] != '\n',
        prefix_chars().len() == 31,
{
    reveal_strlit("relative_to_absolute_proxy_path");
    let pre = prefix_chars();
    assert(pre =~= seq![
        'r', 'e', 'l', 'a', 't', 'i', 'v', 'e', '_', 't', 'o', '_', 'a', 'b', 's', 'o', 'l', 'u',
        't', 'e', '_', 'p', 'r', 'o', 'x', 'y', '_', 'p', 'a', 't', 'h',
    ]);
    assert forall|k: int| 0 <= k < pre.len() implies pre[k] != '/' && pre[k] != '\n' by {}
}

/// Every encoded reference begins with `/`, the fixed prefix segment, and
/// another `/`, whatever URL it encodes.
pub proof fn lemma_encoded_ref_prefix(text: Seq<char>)
    ensures
        encoded_ref(text).len() >= prefix_chars().len() + 2,
        encoded_ref(text).subrange(0, prefix_chars().len() as int + 2) == seq!['/'] + prefix_chars()
            + seq!['/'],
{
    assert(encoded_ref(text).subrange(0, prefix_chars().len() as int + 2) =~= seq!['/'] + prefix_chars()
        + seq!['/']);
}

/// The Unicode `White_Space` characters, the set `str::trim` strips.
pub open spec fn is_space(c: char) -> bool {
    let u = c as u32;
    ||| u == 0x09
    ||| u == 0x0A
    ||| u == 0x0B
    ||| u == 0x0C
    ||| u == 0x0D
    ||| u == 0x20
    ||| u == 0x85
    ||| u == 0xA0
    ||| u == 0x1680
    ||| (0x2000 <= u && u <= 0x200A)
    ||| u == 0x2028
    ||| u == 0x2029
    ||| u == 0x202F
    ||| u == 0x205F
    ||| u == 0x3000
}

fn char_is_space(c: char) -> (r: bool)
    ensures
        r == is_space(c),
{
    let u = c as u32;
    u == 0x09 || u == 0x0A || u == 0x0B || u == 0x0C || u == 0x0D || u == 0x20 || u == 0x85 || u
        == 0xA0 || u == 0x1680 || (0x2000 <= u && u <= 0x200A) || u == 0x2028 || u == 0x2029 || u
        == 0x202F || u == 0x205F || u == 0x3000
}

/// A line made of whitespace alone (possibly empty). Dropped from the output.
pub open spec fn is_blank(l: Seq<char>) -> bool {
    forall|i: int| 0 <= i < l.len() ==> is_space(#[trigger] l[i])
}

/// A line whose first non-whitespace character is `#`. Passed through
/// unchanged.
pub open spec fn is_directive(l: Seq<char>) -> bool
    decreases l.len(),
{
    if l.len() == 0 {
        false
    } else if is_space(l[0]) {
        is_directive(l.subrange(1, l.len() as int))
    } else {
        l[0] == '#'
    }
}

/// What one non-blank manifest line becomes: directives go through unchanged;
/// an absolute URL is replaced by its encoded reference; anything else (a
/// relative reference, or a malformed one) goes through unchanged.
pub open spec fn line_out(l: Seq<char>) -> Seq<char> {
    if is_directive(l) {
        l
    } else if accepts_url(l) {
        encoded_ref(url_canon(l))
    } else {
        l
    }
}

/// What one manifest line contributes to the output: nothing for a blank
/// line, otherwise the rewritten line followed by `\n`.
pub open spec fn render_line(l: Seq<char>) -> Seq<char> {
    if is_blank(l) {
        Seq::empty()
    } else {
        line_out(l) + seq!['\n']
    }
}

/// The concatenation of the contributions of a sequence of lines, in order.
pub open spec fn render(ls: Seq<Seq<char>>) -> Seq<char>
    decreases ls.len(),
{
    if ls.len() == 0 {
        Seq::empty()
    } else {
        render_line(ls[0]) + render(ls.subrange(1, ls.len() as int))
    }
}

/// The lines of `s`, split at `\n` or `\r\n`, with the final terminator
/// optional (the splitting `str::lines` performs).
pub open spec fn lines_of(s: Seq<char>) -> Seq<Seq<char>>
    decreases s.len(),
{
    if s.len() == 0 {
        Seq::empty()
    } else if s[0] == '\n' {
        seq![Seq::<char>::empty()] + lines_of(s.subrange(1, s.len() as int))
    } else if s.len() >= 2 && s[0] == '\r' && s[1] == '\n' {
        seq![Seq::<char>::empty()] + lines_of(s.subrange(2, s.len() as int))
    } else {
        let rest = lines_of(s.subrange(1, s.len() as int));
        if rest.len() == 0 {
            seq![seq![s[0]]]
        } else {
            seq![seq![s[0]] + rest[0]] + rest.subrange(1, rest.len() as int)
        }
    }
}

/// What `rewrite_manifest` returns: every line of the input, classified and
/// rewritten, blank lines dropped, in the original order.
pub open spec fn rewrite_spec(s: Seq<char>) -> Seq<char> {
    render(lines_of(s))
}

/// `l` with one trailing carriage return removed, as line splitting does
/// before a `\n`.
pub open spec fn strip_cr(l: Seq<char>) -> Seq<char> {
    if l.len() > 0 && l[l.len() - 1] == '\r' {
        l.subrange(0, l.len() - 1)
    } else {
        l
    }
}

proof fn lemma_lines_terminated(a: Seq<char>, t: Seq<char>)
    requires
        forall|i: int| 0 <= i < a.len() ==> a[i] != '\n',
    ensures
        lines_of(a + seq!['\n'] + t) == seq![strip_cr(a)] + lines_of(t),
    decreases a.len(),
{
    let s = a + seq!['\n'] + t;
    if a.len() == 0 {
        assert(s =~= seq!['\n'] + t);
        assert(s.subrange(1, s.len() as int) =~= t);
        assert(strip_cr(a) =~= Seq::<char>::empty());
        assert(lines_of(s) =~~= seq![strip_cr(a)] + lines_of(t));
    } else if a.len() == 1 && a[0] == '\r' {
        assert(s[0] == '\r' && s[1] == '\n');
        assert(s.subrange(2, s.len() as int) =~= t);
        assert(strip_cr(a) =~= Seq::<char>::empty());
        assert(lines_of(s) =~~= seq![strip_cr(a)] + lines_of(t));
    } else {
        let a2 = a.subrange(1, a.len() as int);
        assert(s[0] == a[0] && s[0] != '\n');
        assert(s[1] == (if a.len() >= 2 {
            a[1]
        } else {
            '\n'
        }));
        assert(!(s.len() >= 2 && s[0] == '\r' && s[1] == '\n'));
        assert(s.subrange(1, s.len() as int) =~= a2 + seq!['\n'] + t);
        lemma_lines_terminated(a2, t);
        let rest = lines_of(s.subrange(1, s.len() as int));
        assert(rest.len() > 0);
        assert(rest[0] == strip_cr(a2));
        assert(rest.subrange(1, rest.len() as int) =~~= lines_of(t));
        assert(seq![a[0]] + strip_cr(a2) =~= strip_cr(a));
        assert(lines_of(s) =~~= seq![strip_cr(a)] + lines_of(t));
    }
}

proof fn lemma_lines_unterminated(a: Seq<char>)
    requires
        a.len() > 0,
        forall|i: int| 0 <= i < a.len() ==> a[i] != '\n',
    ensures
        lines_of(a) == seq![a],
    decreases a.len(),
{
    let a2 = a.subrange(1, a.len() as int);
    assert(a[0] != '\n');
    if a.len() == 1 {
        assert(a2.len() == 0);
        assert(lines_of(a2).len() == 0);
        assert(seq![a[0]] =~= a);
        assert(lines_of(a) =~~= seq![a]);
    } else {
        assert(a[1] != '\n');
        lemma_lines_unterminated(a2);
        let rest = lines_of(a2);
        assert(rest == seq![a2]);
        assert(rest.subrange(1, rest.len() as int) =~~= Seq::<Seq<char>>::empty());
        assert(seq![a[0]] + rest[0] =~= a);
        assert(lines_of(a) =~~= seq![seq![a[0]] + rest[0]] + rest.subrange(1, rest.len() as int));
        assert(lines_of(a) =~~= seq![a]);
    }
}

fn line_is_blank(l: &str) -> (r: bool)
    ensures
        r == is_blank(l@),
{
    let n = l.unicode_len();
    let mut j: usize = 0;
    while j < n
        invariant
            j <= n,
            n == l@.len(),
            forall|k: int| 0 <= k < j ==> is_space(#[trigger] l@[k]),
        decreases n - j,
    {
        if !char_is_space(l.get_char(j)) {
            assert(!is_space(l@[j as int]));
            return false;
        }
        j += 1;
    }
    true
}

fn line_is_directive(l: &str) -> (r: bool)
    ensures
        r == is_directive(l@),
{
    let n = l.unicode_len();
    proof {
        assert(l@.subrange(0, n as int) =~= l@);
    }
    let mut j: usize = 0;
    while j < n
        invariant
            j <= n,
            n == l@.len(),
            is_directive(l@) == is_directive(l@.subrange(j as int, n as int)),
        decreases n - j,
    {
        let c = l.get_char(j);
        let sub = Ghost(l@.subrange(j as int, n as int));
        assert(sub@[0] == c);
        if !char_is_space(c) {
            return c == '#';
        }
        proof {
            assert(sub@.subrange(1, sub@.len() as int) =~= l@.subrange(j + 1, n as int));
        }
        j += 1;
    }
    false
}

/// Appends to `out` what `line` contributes to a rewritten manifest: either
/// nothing, or one non-empty newline-free line followed by one `\n`.
fn emit_line(out: &mut String, line: &str)
    requires
        forall|i: int| 0 <= i < line@.len() ==> line@[i] != '\n',
    ensures
        final (out)@ == old(out)@ + render_line(line@),
        render_line(line@).len() > 0 ==> render_line(line@).len() >= 2,
        render_line(line@).len() > 0 ==> render_line(line@)[render_line(line@).len() - 1] == '\n',
        forall|i: int| 0 <= i < render_line(line@).len() - 1 ==> render_line(line@)[i] != '\n',
{
    proof {
        if !is_blank(line@) {
            if line@.len() == 0 {
                assert(is_blank(line@));
            }
            assert(line@.len() >= 1);
        }
    }
    proof {
        reveal_strlit("\n");
    }
    if line_is_blank(line) {
        assert(old(out)@ + render_line(line@) =~= old(out)@);
    } else if line_is_directive(line) {
        out.append(line);
        out.append("\n");
        assert(out@ =~= old(out)@ + render_line(line@));
    } else {
        match rewrite_url(line) {
            Ok(new_url) => {
                out.append(new_url.as_str());
                out.append("\n");
                assert(out@ =~= old(out)@ + render_line(line@));
            },
            Err(_) => {
                out.append(line);
                out.append("\n");
                assert(out@ =~= old(out)@ + render_line(line@));
            },
        }
    }
}

/// Appending a block that is empty, or that ends in one newline preceded
/// only by non-newlines, keeps the output's shape: it still never begins
/// with a newline, never holds two newlines in a row, and ends with a
/// newline when non-empty.
proof fn lemma_block_append(a: Seq<char>, b: Seq<char>)
    requires
        a.len() > 0 ==> a[0] != '\n',
        a.len() > 0 ==> a[a.len() - 1] == '\n',
        forall|k: int| 0 < k < a.len() && (#[trigger] a[k]) == '\n' ==> a[k - 1] != '\n',
        b.len() > 0 ==> b.len() >= 2,
        b.len() > 0 ==> b[b.len() - 1] == '\n',
        forall|i: int| 0 <= i < b.len() - 1 ==> b[i] != '\n',
    ensures
        (a + b).len() > 0 ==> (a + b)[0] != '\n',
        (a + b).len() > 0 ==> (a + b)[(a + b).len() - 1] == '\n',
        forall|k: int| 0 < k < (a + b).len() && (#[trigger] (a + b)[k]) == '\n'
            ==> (a + b)[k - 1] != '\n',
{
    if b.len() == 0 {
        assert(a + b =~= a);
    } else {
        let c = a + b;
        assert forall|k: int| 0 < k < c.len() && (#[trigger] c[k]) == '\n' implies c[k - 1]
            != '\n' by {
            if k < a.len() {
                assert(c[k] == a[k] && c[k - 1] == a[k - 1]);
            } else if k == a.len() {
                assert(c[k] == b[0]);
            } else {
                assert(c[k] == b[k - a.len()]);
                assert(k - a.len() == b.len() - 1);
                assert(c[k - 1] == b[k - 1 - a.len()]);
            }
        }
    }
}

/// Returns a new manifest with only relative URLs.
///
/// Splits the input into lines (`\n` or `\r\n`), drops whitespace-only lines,
/// passes directive lines (first non-whitespace character `#`) through
/// unchanged, replaces each absolute-URL line by its encoded reference, and
/// passes every other line through unchanged. Emitted lines are separated by
/// `\n`; the output never reorders lines.
///
/// The last three clauses state the output's shape in bytes: no blank line
/// ever appears — the result never begins with a newline, never holds two
/// newlines in a row, and is either empty or ends with exactly one newline.
pub fn rewrite_manifest(manifest_content: &str) -> (result: String)
    ensures
        result@ == rewrite_spec(manifest_content@),
        result@.len() > 0 ==> result@[0] != '\n',
        result@.len() > 0 ==> result@[result@.len() - 1] == '\n',
        forall|i: int| 0 < i < result@.len() && (#[trigger] result@[i]) == '\n'
            ==> result@[i - 1] != '\n',
{
    let n = manifest_content.unicode_len();
    let ghost s = manifest_content@;
    let mut result = String::new();
    proof {
        assert(s.subrange(0, n as int) =~= s);
    }
    let mut start: usize = 0;
    let mut i: usize = 0;
    while i < n
        invariant
            start <= i <= n,
            n == s.len(),
            s == manifest_content@,
            forall|k: int| start <= k < i ==> s[k] != '\n',
            rewrite_spec(s) == result@ + render(lines_of(s.subrange(start as int, n as int))),
            result@.len() > 0 ==> result@[0] != '\n',
            result@.len() > 0 ==> result@[result@.len() - 1] == '\n',
            forall|k: int| 0 < k < result@.len() && (#[trigger] result@[k]) == '\n'
                ==> result@[k - 1] != '\n',
        decreases n - i,
    {
        let c = manifest_content.get_char(i);
        if c == '\n' {
            let end = if i > start && manifest_content.get_char(i - 1) == '\r' {
                i - 1
            } else {
                i
            };
            let line = manifest_content.substring_char(start, end);
            proof {
                let a = s.subrange(start as int, i as int);
                assert(s.subrange(start as int, n as int) =~= a + seq!['\n'] + s.subrange(
                    i + 1,
                    n as int,
                ));
                lemma_lines_terminated(a, s.subrange(i + 1, n as int));
                assert(line@ =~= strip_cr(a));
                let ls = seq![strip_cr(a)] + lines_of(s.subrange(i + 1, n as int));
                assert(ls.subrange(1, ls.len() as int) =~~= lines_of(s.subrange(i + 1, n as int)));
                assert(render(ls) == render_line(line@) + render(
                    lines_of(s.subrange(i + 1, n as int)),
                ));
                assert(forall|k: int| 0 <= k < line@.len() ==> line@[k] != '\n');
            }
            let ghost before = result@;
            emit_line(&mut result, line);
            proof {
                lemma_block_append(before, render_line(line@));
            }
            proof {
                assert(rewrite_spec(s) =~= result@ + render(lines_of(s.subrange(i + 1, n as int))));
            }
            start = i + 1;
        }
        i += 1;
    }
    if start < n {
        let line = manifest_content.substring_char(start, n);
        proof {
            lemma_lines_unterminated(s.subrange(start as int, n as int));
            let ls = seq![line@];
            assert(line@ =~= s.subrange(start as int, n as int));
            assert(ls.subrange(1, ls.len() as int) =~~= Seq::<Seq<char>>::empty());
            assert(render(ls) == render_line(ls[0]) + render(ls.subrange(1, ls.len() as int)));
            assert(render(ls.subrange(1, ls.len() as int)) == Seq::<char>::empty());
            assert(render_line(line@) + Seq::<char>::empty() =~= render_line(line@));
            assert(render(ls) =~= render_line(line@));
            assert(forall|k: int| 0 <= k < line@.len() ==> line@[k] != '\n');
        }
        let ghost before = result@;
        emit_line(&mut result, line);
        proof {
            lemma_block_append(before, render_line(line@));
        }
        proof {
            assert(rewrite_spec(s) =~= result@);
        }
    } else {
        proof {
            assert(s.subrange(start as int, n as int) =~= Seq::<char>::empty());
            assert(rewrite_spec(s) =~= result@);
        }
    }
    result
}

/// The non-blank lines of `ls`, in their original order.
pub open spec fn kept_lines(ls: Seq<Seq<char>>) -> Seq<Seq<char>>
    decreases ls.len(),
{
    if ls.len() == 0 {
        Seq::empty()
    } else if is_blank(ls[0]) {
        kept_lines(ls.subrange(1, ls.len() as int))
    } else {
        seq![ls[0]] + kept_lines(ls.subrange(1, ls.len() as int))
    }
}

/// A directive line is emitted byte-identical: rewriting changes nothing of
/// a line whose first non-whitespace character is `#`.
pub proof fn lemma_directive_unchanged(l: Seq<char>)
    requires
        is_directive(l),
    ensures
        line_out(l) == l,
{
}

/// No line kept by the rewriter is blank: blank lines never appear in the
/// output, wherever they stand in the input.
pub proof fn lemma_kept_lines_not_blank(ls: Seq<Seq<char>>)
    ensures
        forall|i: int| 0 <= i < kept_lines(ls).len() ==> !is_blank(#[trigger] kept_lines(ls)[i]),
    decreases ls.len(),
{
    if ls.len() > 0 {
        let rest = ls.subrange(1, ls.len() as int);
        lemma_kept_lines_not_blank(rest);
        if !is_blank(ls[0]) {
            let k = seq![ls[0]] + kept_lines(rest);
            assert forall|i: int| 0 <= i < k.len() implies !is_blank(#[trigger] k[i]) by {
                if i > 0 {
                    assert(k[i] == kept_lines(rest)[i - 1]);
                }
            }
        }
    }
}

/// Rendering a manifest is rendering its non-blank lines alone, in their
/// original relative order: leading, trailing and internal blank lines
/// contribute nothing, and non-blank lines are never reordered.
pub proof fn lemma_render_keeps_nonblank_order(ls: Seq<Seq<char>>)
    ensures
        render(ls) == render(kept_lines(ls)),
    decreases ls.len(),
{
    if ls.len() == 0 {
    } else {
        let rest = ls.subrange(1, ls.len() as int);
        lemma_render_keeps_nonblank_order(rest);
        if is_blank(ls[0]) {
            assert(render(ls) =~= render(rest));
        } else {
            let k = seq![ls[0]] + kept_lines(rest);
            assert(k.len() > 0 && k[0] == ls[0]);
            assert(k.subrange(1, k.len() as int) =~~= kept_lines(rest));
            assert(render(k) == render_line(ls[0]) + render(kept_lines(rest)));
        }
    }
}

/// The rewritten manifest is exactly the rendering of the input's non-blank
/// lines, in order.
pub proof fn lemma_rewrite_drops_blanks(s: Seq<char>)
    ensures
        rewrite_spec(s) == render(kept_lines(lines_of(s))),
{
    lemma_render_keeps_nonblank_order(lines_of(s));
}

} // verus!
