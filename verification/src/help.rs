//! The help shown for a variable or a template, in hovers and completions:
//! a snippet of its definition, its comments, and where it is defined.

use vstd::prelude::*;
use vstd::string::StringSliceAdditionalSpecFns;

use crate::ast::{lines_text, AssignOp, Span};
use crate::dotgn::{decimal_text, push_decimal};
use crate::items::{lines_view, AssignmentSite, AssignmentView, Template, TemplateView, Variable, VariableView};
use crate::line_index::{newline_count, spec_position, Position};
use crate::symbols::op_text;
use crate::storage::{Document, DocumentStorage};
use crate::util::{NEWLINE, SLASH};
use crate::workspace::{append_bytes, copy_range, format_path, spec_format_path};

verus! {

/// How many lines `str::lines` finds in `s`: one per newline, and one more
/// for text after the last newline.
pub open spec fn line_count(s: Seq<u8>) -> nat {
    newline_count(s) + if s.len() > 0 && s.last() != NEWLINE {
        1nat
    } else {
        0nat
    }
}

/// Whether `a b c` encodes one of the three-byte whitespace characters of
/// Unicode (U+1680, U+2000 to U+200A, U+2028, U+2029, U+202F, U+205F,
/// U+3000).
pub open spec fn is_ws3(a: u8, b: u8, c: u8) -> bool {
    ||| a == 0xE1 && b == 0x9A && c == 0x80
    ||| a == 0xE2 && b == 0x80 && ((0x80 <= c && c <= 0x8A) || c == 0xA8 || c == 0xA9 || c == 0xAF)
    ||| a == 0xE2 && b == 0x81 && c == 0x9F
    ||| a == 0xE3 && b == 0x80 && c == 0x80
}

/// Whether `b` is an ASCII whitespace character for `char::is_whitespace`.
pub open spec fn is_ws1(b: u8) -> bool {
    (9 <= b && b <= 13) || b == 32
}

/// Whether `a b` encodes U+0085 or U+00A0.
pub open spec fn is_ws2(a: u8, b: u8) -> bool {
    a == 0xC2 && (b == 0x85 || b == 0xA0)
}

/// The length of the whitespace character that `s` starts with, or 0.
pub open spec fn leading_ws(s: Seq<u8>) -> nat {
    if s.len() >= 1 && is_ws1(s[0]) {
        1
    } else if s.len() >= 2 && is_ws2(s[0], s[1]) {
        2
    } else if s.len() >= 3 && is_ws3(s[0], s[1], s[2]) {
        3
    } else {
        0
    }
}

/// The length of the whitespace character that `s` ends with, or 0.
pub open spec fn trailing_ws(s: Seq<u8>) -> nat {
    let n = s.len() as int;
    if n >= 1 && is_ws1(s[n - 1]) {
        1
    } else if n >= 2 && is_ws2(s[n - 2], s[n - 1]) {
        2
    } else if n >= 3 && is_ws3(s[n - 3], s[n - 2], s[n - 1]) {
        3
    } else {
        0
    }
}

/// `s` without its leading whitespace.
pub open spec fn trim_start(s: Seq<u8>) -> Seq<u8>
    decreases s.len(),
{
    let k = leading_ws(s);
    if k > 0 {
        trim_start(s.skip(k as int))
    } else {
        s
    }
}

/// `s` without its trailing whitespace.
pub open spec fn trim_end(s: Seq<u8>) -> Seq<u8>
    decreases s.len(),
{
    let k = trailing_ws(s);
    if k > 0 {
        trim_end(s.take(s.len() - k))
    } else {
        s
    }
}

/// `s` without whitespace at either end, as `str::trim` gives it.
pub open spec fn trim(s: Seq<u8>) -> Seq<u8> {
    trim_end(trim_start(s))
}

fn ws1(b: u8) -> (r: bool)
    ensures
        r == is_ws1(b),
{
    (9 <= b && b <= 13) || b == 32
}

fn ws2(a: u8, b: u8) -> (r: bool)
    ensures
        r == is_ws2(a, b),
{
    a == 0xC2 && (b == 0x85 || b == 0xA0)
}

fn ws3(a: u8, b: u8, c: u8) -> (r: bool)
    ensures
        r == is_ws3(a, b, c),
{
    (a == 0xE1 && b == 0x9A && c == 0x80) || (a == 0xE2 && b == 0x80 && ((0x80 <= c && c <= 0x8A) || c
        == 0xA8 || c == 0xA9 || c == 0xAF)) || (a == 0xE2 && b == 0x81 && c == 0x9F) || (a == 0xE3 && b
        == 0x80 && c == 0x80)
}

/// `leading_ws` of `s[i..j]`.
fn leading_ws_at(s: &[u8], i: usize, j: usize) -> (k: usize)
    requires
        i <= j <= s@.len(),
    ensures
        k == leading_ws(s@.subrange(i as int, j as int)),
{
    let n = j - i;
    if n >= 1 && ws1(s[i]) {
        1
    } else if n >= 2 && ws2(s[i], s[i + 1]) {
        2
    } else if n >= 3 && ws3(s[i], s[i + 1], s[i + 2]) {
        3
    } else {
        0
    }
}

/// `trailing_ws` of `s[i..j]`.
fn trailing_ws_at(s: &[u8], i: usize, j: usize) -> (k: usize)
    requires
        i <= j <= s@.len(),
    ensures
        k == trailing_ws(s@.subrange(i as int, j as int)),
{
    let n = j - i;
    if n >= 1 && ws1(s[j - 1]) {
        1
    } else if n >= 2 && ws2(s[j - 2], s[j - 1]) {
        2
    } else if n >= 3 && ws3(s[j - 3], s[j - 2], s[j - 1]) {
        3
    } else {
        0
    }
}

/// The bounds of `trim(s)` within `s`.
fn trim_bounds(s: &[u8]) -> (r: (usize, usize))
    ensures
        r.0 <= r.1 <= s@.len(),
        s@.subrange(r.0 as int, r.1 as int) == trim(s@),
{
    let n = s.len();
    let mut i: usize = 0;
    assert(s@.subrange(0, n as int) =~= s@);
    loop
        invariant
            n == s@.len(),
            i <= n,
            trim_start(s@) == trim_start(s@.subrange(i as int, n as int)),
        ensures
            i <= n,
            trim_start(s@) == s@.subrange(i as int, n as int),
        decreases n - i,
    {
        let k = leading_ws_at(s, i, n);
        if k == 0 {
            break;
        }
        assert(s@.subrange(i as int, n as int).skip(k as int) =~= s@.subrange(i + k, n as int));
        i = i + k;
    }
    let mut j: usize = n;
    loop
        invariant
            n == s@.len(),
            i <= j <= n,
            trim(s@) == trim_end(s@.subrange(i as int, j as int)),
        ensures
            i <= j <= n,
            trim(s@) == s@.subrange(i as int, j as int),
        decreases j - i,
    {
        let k = trailing_ws_at(s, i, j);
        if k == 0 {
            break;
        }
        assert(s@.subrange(i as int, j as int).take(j - i - k) =~= s@.subrange(i as int, j - k));
        j = j - k;
    }
    (i, j)
}

/// `str::lines().count()` of `s[a..b]`.
fn count_lines(s: &[u8], a: usize, b: usize) -> (r: usize)
    requires
        a <= b <= s@.len(),
    ensures
        r == line_count(s@.subrange(a as int, b as int)),
{
    let mut count: usize = 0;
    let mut k: usize = a;
    while k < b
        invariant
            a <= k <= b <= s@.len(),
            count == newline_count(s@.subrange(a as int, k as int)),
            count <= k - a,
        decreases b - k,
    {
        assert(s@.subrange(a as int, k + 1).drop_last() =~= s@.subrange(a as int, k as int));
        if s[k] == NEWLINE {
            count = count + 1;
        }
        k = k + 1;
    }
    if a < b && s[b - 1] != NEWLINE {
        proof {
            let t = s@.subrange(a as int, b as int);
            assert(t.drop_last() =~= s@.subrange(a as int, b - 1));
            lemma_newline_count_bound(t.drop_last());
        }
        count = count + 1;
    }
    count
}

proof fn lemma_newline_count_bound(s: Seq<u8>)
    ensures
        newline_count(s) <= s.len(),
    decreases s.len(),
{
    if s.len() > 0 {
        lemma_newline_count_bound(s.drop_last());
    }
}

/// Appends the comment lines, each followed by a newline.
fn push_comments_text(out: &mut Vec<u8>, lines: &Vec<Vec<u8>>)
    ensures
        final(out)@ == old(out)@ + lines_text(lines_view(lines@)),
{
    let ghost all = lines_view(lines@);
    let mut i: usize = 0;
    assert(all.take(0) =~= Seq::<Seq<u8>>::empty());
    while i < lines.len()
        invariant
            i <= lines@.len(),
            all == lines_view(lines@),
            out@ == old(out)@ + lines_text(all.take(i as int)),
        decreases lines.len() - i,
    {
        crate::workspace::append_bytes(out, lines[i].as_slice());
        out.push(NEWLINE);
        assert(all.take(i + 1).drop_last() =~= all.take(i as int));
        assert(all.take(i + 1).last() == lines@[i as int]@);
        assert(out@ =~= old(out)@ + lines_text(all.take(i + 1)));
        i += 1;
    }
    assert(all.take(lines@.len() as int) =~= all);
}


/// What `Url::from_file_path` makes of an absolute path: a `file:` URL.
pub uninterp spec fn file_url_text(path: Seq<u8>) -> Seq<u8>;

/// Whether `path` is absolute.
pub open spec fn is_absolute(path: Seq<u8>) -> bool {
    path.len() > 0 && path[0] == SLASH
}

/// The `file:` URL of `path`, by `Url::from_file_path` of the `url` crate
/// (re-exported by `tower_lsp`). On Unix that call fails exactly when the
/// path is not absolute; the URL itself (percent-encoded path segments) is
/// named, not spelled out.
#[verifier::external_body]
fn file_url(path: &[u8]) -> (r: Option<Vec<u8>>)
    ensures
        r is Some <==> is_absolute(path@),
        r matches Some(u) ==> u@ == file_url_text(path@),
{
    match tower_lsp::lsp_types::Url::from_file_path(String::from_utf8_lossy(path).to_string()) {
        Ok(url) => Some(url.as_str().as_bytes().to_vec()),
        Err(_) => None,
    }
}

/// A fenced code block in language `lang`.
pub open spec fn code_block(lang: Seq<u8>, body: Seq<u8>) -> Seq<u8> {
    seq![96u8, 96u8, 96u8] + lang + seq![NEWLINE] + body + seq![NEWLINE, 96u8, 96u8, 96u8]
}

pub open spec fn gn_word() -> Seq<u8> {
    seq![103u8, 110u8]
}

pub open spec fn text_word() -> Seq<u8> {
    seq![116u8, 101u8, 120u8, 116u8]
}

pub open spec fn dots() -> Seq<u8> {
    seq![46u8, 46u8, 46u8]
}

/// `Defined at [<path>:<line>:<column>](<url>#L<line>,<column>)`, lines and
/// columns counted from 1, the path shown relative to `root` when inside it.
pub open spec fn location_link(path: Seq<u8>, root: Seq<u8>, pos: Position) -> Seq<u8> {
    let l = decimal_text((pos.line + 1) as nat);
    let c = decimal_text((pos.character + 1) as nat);
    seq![68u8, 101u8, 102u8, 105u8, 110u8, 101u8, 100u8, 32u8, 97u8, 116u8, 32u8, 91u8] + spec_format_path(path, root)
        + seq![58u8] + l + seq![58u8] + c + seq![93u8, 40u8] + file_url_text(path) + seq![35u8, 76u8] + l
        + seq![44u8] + c + seq![41u8]
}

/// The text of `span` within `text`.
pub open spec fn text_at(text: Seq<u8>, span: Span) -> Seq<u8> {
    text.subrange(span.start as int, span.end as int)
}

/// A value as a snippet shows it: itself up to five lines, else `...`.
pub open spec fn shown_value(v: Seq<u8>) -> Seq<u8> {
    if line_count(v) <= 5 {
        v
    } else {
        dots()
    }
}

/// Whether the spans of `a` lie within a text of `len` bytes.
pub open spec fn fits(a: AssignmentView, len: nat) -> bool {
    &&& a.2.start <= a.2.end <= len
    &&& match a.1 {
        AssignmentSite::Assignment { lvalue, op, rvalue } => lvalue.start <= lvalue.end <= len && rvalue.start
            <= rvalue.end <= len,
        _ => true,
    }
}

/// The snippet of `a` in the text of its file: `<target> <op> <value>` for
/// an assignment, the call itself otherwise.
pub open spec fn snippet(text: Seq<u8>, a: AssignmentView) -> Seq<u8> {
    match a.1 {
        AssignmentSite::Assignment { lvalue, op, rvalue } => text_at(text, lvalue) + seq![32u8] + op_text(op)
            + seq![32u8] + shown_value(text_at(text, rvalue)),
        _ => text_at(text, a.2),
    }
}

/// The help paragraphs of the variable `v` named `name`. Set once, it shows
/// the snippet, the comments of an assignment, and where it is set (`text`
/// is the text of that file); set more than once, `<name> = ...` and how
/// many places set it.
pub open spec fn variable_help(name: Seq<u8>, v: VariableView, text: Seq<u8>, root: Seq<u8>) -> Seq<Seq<u8>> {
    if v.0.len() == 1 {
        let a = v.0[0];
        let head = code_block(gn_word(), snippet(text, a));
        let link = location_link(a.0, root, spec_position(text, a.2.start as int));
        if a.1 is Assignment {
            seq![head, code_block(text_word(), trim(lines_text(a.4))), link]
        } else {
            seq![head, link]
        }
    } else {
        seq![
            code_block(gn_word(), name + seq![32u8, 61u8, 32u8] + dots()),
            seq![68u8, 101u8, 102u8, 105u8, 110u8, 101u8, 100u8, 32u8, 97u8, 110u8, 100u8, 32u8, 109u8, 111u8, 100u8, 105u8, 102u8, 105u8, 101u8, 100u8, 32u8, 105u8, 110u8, 32u8]
                + decimal_text(v.0.len()) + seq![32u8, 108u8, 111u8, 99u8, 97u8, 116u8, 105u8, 111u8, 110u8, 115u8],
        ]
    }
}

/// The help paragraphs of the template `t` (`text` is the text of its file):
/// `template("<name>") { ... }`, its comments when it has any, and where it
/// is defined.
pub open spec fn template_help(t: TemplateView, text: Seq<u8>, root: Seq<u8>) -> Seq<Seq<u8>> {
    let head = code_block(
        gn_word(),
        seq![116u8, 101u8, 109u8, 112u8, 108u8, 97u8, 116u8, 101u8, 40u8, 34u8] + t.2 + seq![34u8, 41u8, 32u8, 123u8, 32u8, 46u8, 46u8, 46u8, 32u8, 125u8],
    );
    let link = location_link(t.0, root, spec_position(text, t.1.start as int));
    if t.3.len() > 0 {
        seq![head, code_block(text_word(), trim(lines_text(t.3))), link]
    } else {
        seq![head, link]
    }
}

fn code_block_exec(lang: &[u8], body: &[u8]) -> (r: Vec<u8>)
    ensures
        r@ == code_block(lang@, body@),
{
    let mut out: Vec<u8> = Vec::new();
    out.push(96u8);
    out.push(96u8);
    out.push(96u8);
    append_bytes(&mut out, lang);
    out.push(NEWLINE);
    append_bytes(&mut out, body);
    out.push(NEWLINE);
    out.push(96u8);
    out.push(96u8);
    out.push(96u8);
    assert(out@ =~= code_block(lang@, body@));
    out
}

fn location_link_exec(path: &[u8], root: &[u8], pos: Position, url: &[u8]) -> (r: Vec<u8>)
    requires
        url@ == file_url_text(path@),
    ensures
        r@ == location_link(path@, root@, pos),
{
    let prefix: &[u8] = &[68u8, 101u8, 102u8, 105u8, 110u8, 101u8, 100u8, 32u8, 97u8, 116u8, 32u8, 91u8];
    let mut out: Vec<u8> = Vec::new();
    append_bytes(&mut out, prefix);
    let shown = format_path(path, root);
    append_bytes(&mut out, shown.as_slice());
    out.push(58u8);
    push_decimal(&mut out, pos.line as u64 + 1);
    out.push(58u8);
    push_decimal(&mut out, pos.character as u64 + 1);
    out.push(93u8);
    out.push(40u8);
    append_bytes(&mut out, url);
    out.push(35u8);
    out.push(76u8);
    push_decimal(&mut out, pos.line as u64 + 1);
    out.push(44u8);
    push_decimal(&mut out, pos.character as u64 + 1);
    out.push(41u8);
    assert(out@ =~= location_link(path@, root@, pos));
    out
}

/// The text of `a`'s comments, each line followed by a newline, trimmed.
fn trimmed_comments(lines: &Vec<Vec<u8>>) -> (r: Vec<u8>)
    ensures
        r@ == trim(lines_text(lines_view(lines@))),
{
    let mut all: Vec<u8> = Vec::new();
    push_comments_text(&mut all, lines);
    assert(all@ =~= lines_text(lines_view(lines@)));
    let (i, j) = trim_bounds(all.as_slice());
    copy_range(all.as_slice(), i, j)
}

fn snippet_exec(text: &[u8], a: &crate::items::VariableAssignment) -> (r: Vec<u8>)
    requires
        fits(a@, text@.len()),
    ensures
        r@ == snippet(text@, a@),
{
    match a.site {
        AssignmentSite::Assignment { lvalue, op, rvalue } => {
            let mut out = copy_range(text, lvalue.start, lvalue.end);
            out.push(32u8);
            match op {
                AssignOp::Assign => out.push(61u8),
                AssignOp::AddAssign => {
                    out.push(43u8);
                    out.push(61u8);
                },
                AssignOp::SubAssign => {
                    out.push(45u8);
                    out.push(61u8);
                },
            }
            out.push(32u8);
            if count_lines(text, rvalue.start, rvalue.end) <= 5 {
                let v = copy_range(text, rvalue.start, rvalue.end);
                append_bytes(&mut out, v.as_slice());
            } else {
                out.push(46u8);
                out.push(46u8);
                out.push(46u8);
            }
            assert(out@ =~= snippet(text@, a@));
            out
        },
        _ => copy_range(text, a.statement_span.start, a.statement_span.end),
    }
}

/// The help paragraphs of `variable`, named `name`; `document` is the file
/// that sets it when it is set once. Nothing when the spans of that single
/// place do not lie within the document's text.
pub fn format_variable_help(name: &[u8], variable: &Variable, document: &Document, workspace_root: &[u8]) -> (r:
    Option<Vec<Vec<u8>>>)
    requires
        variable@.0.len() >= 1,
        variable@.0.len() == 1 ==> !(variable@.0[0].1 is Foreach) && is_absolute(variable@.0[0].0)
            && document.path@ == variable@.0[0].0,
        document.line_index@ == document.bytes(),
    ensures
        r is Some <==> (variable@.0.len() == 1 ==> fits(variable@.0[0], document.bytes().len())),
        r matches Some(p) ==> lines_view(p@) == variable_help(name@, variable@, document.bytes(), workspace_root@),
{
    let n = variable.assignments.len();
    assert(variable@.0.len() == n);
    if n == 1 {
        let a = &variable.assignments[0];
        assert(a@ == variable@.0[0]);
        let text = document.data.as_str().as_bytes();
        let len = text.len();
        let ok = a.statement_span.start <= a.statement_span.end && a.statement_span.end <= len && match a.site {
            AssignmentSite::Assignment { lvalue, op: _, rvalue } => lvalue.start <= lvalue.end && lvalue.end <= len
                && rvalue.start <= rvalue.end && rvalue.end <= len,
            _ => true,
        };
        if !ok {
            return None;
        }
        let head = code_block_exec(&[103u8, 110u8], snippet_exec(text, a).as_slice());
        let pos = document.line_index.position(a.statement_span.start);
        let url = match file_url(a.path.as_slice()) {
            Some(u) => u,
            None => return None,
        };
        let link = location_link_exec(a.path.as_slice(), workspace_root, pos, url.as_slice());
        let mut out: Vec<Vec<u8>> = Vec::new();
        out.push(head);
        if let AssignmentSite::Assignment { .. } = a.site {
            let comments = trimmed_comments(&a.comments);
            out.push(code_block_exec(&[116u8, 101u8, 120u8, 116u8], comments.as_slice()));
        }
        out.push(link);
        assert(lines_view(out@) =~= variable_help(name@, variable@, document.bytes(), workspace_root@));
        Some(out)
    } else {
        let eq_dots: &[u8] = &[32u8, 61u8, 32u8, 46u8, 46u8, 46u8];
        assert(eq_dots@ =~= seq![32u8, 61u8, 32u8] + dots());
        let modified: &[u8] = &[68u8, 101u8, 102u8, 105u8, 110u8, 101u8, 100u8, 32u8, 97u8, 110u8, 100u8, 32u8, 109u8, 111u8, 100u8, 105u8, 102u8, 105u8, 101u8, 100u8, 32u8, 105u8, 110u8, 32u8];
        assert(modified@ =~= seq![68u8, 101u8, 102u8, 105u8, 110u8, 101u8, 100u8, 32u8, 97u8, 110u8, 100u8, 32u8, 109u8, 111u8, 100u8, 105u8, 102u8, 105u8, 101u8, 100u8, 32u8, 105u8, 110u8, 32u8]);
        let locations: &[u8] = &[32u8, 108u8, 111u8, 99u8, 97u8, 116u8, 105u8, 111u8, 110u8, 115u8];
        assert(locations@ =~= seq![32u8, 108u8, 111u8, 99u8, 97u8, 116u8, 105u8, 111u8, 110u8, 115u8]);
        let gn: &[u8] = &[103u8, 110u8];
        assert(gn@ =~= gn_word());
        let mut snippet: Vec<u8> = Vec::new();
        append_bytes(&mut snippet, name);
        append_bytes(&mut snippet, eq_dots);
        let head = code_block_exec(gn, snippet.as_slice());
        let mut count: Vec<u8> = Vec::new();
        append_bytes(&mut count, modified);
        push_decimal(&mut count, n as u64);
        append_bytes(&mut count, locations);
        assert(head@ =~= code_block(gn_word(), name@ + seq![32u8, 61u8, 32u8] + dots()));
        let mut out: Vec<Vec<u8>> = Vec::new();
        out.push(head);
        out.push(count);
        assert(lines_view(out@) =~= variable_help(name@, variable@, document.bytes(), workspace_root@));
        Some(out)
    }
}

/// The help paragraphs of `template`; `document` is the file that defines it.
pub fn format_template_help(template: &Template, document: &Document, workspace_root: &[u8]) -> (r: Vec<Vec<u8>>)
    requires
        is_absolute(template@.0),
        document.path@ == template@.0,
        document.line_index@ == document.bytes(),
    ensures
        lines_view(r@) == template_help(template@, document.bytes(), workspace_root@),
{
    let mut body: Vec<u8> = Vec::new();
    append_bytes(&mut body, &[116u8, 101u8, 109u8, 112u8, 108u8, 97u8, 116u8, 101u8, 40u8, 34u8]);
    append_bytes(&mut body, template.name.as_slice());
    append_bytes(&mut body, &[34u8, 41u8, 32u8, 123u8, 32u8, 46u8, 46u8, 46u8, 32u8, 125u8]);
    let head = code_block_exec(&[103u8, 110u8], body.as_slice());
    let pos = document.line_index.position(template.call_span.start);
    let url = match file_url(template.path.as_slice()) {
        Some(u) => u,
        None => Vec::new(),
    };
    let link = location_link_exec(template.path.as_slice(), workspace_root, pos, url.as_slice());
    let mut out: Vec<Vec<u8>> = Vec::new();
    out.push(head);
    if template.comments.len() > 0 {
        let comments = trimmed_comments(&template.comments);
        out.push(code_block_exec(&[116u8, 101u8, 120u8, 116u8], comments.as_slice()));
    }
    out.push(link);
    assert(lines_view(out@) =~= template_help(template@, document.bytes(), workspace_root@));
    out
}

/// The help paragraphs of `variable`, named `name`. The text of the file
/// that sets it comes from `current` when it is that file, else from
/// `storage`; nothing when that file cannot be read or its text no longer
/// holds the spans.
pub fn variable_help_for(
    name: &[u8],
    variable: &Variable,
    current: &Document,
    storage: &DocumentStorage,
    workspace_root: &[u8],
) -> (r: Option<Vec<Vec<u8>>>)
    requires
        variable@.0.len() >= 1,
        variable@.0.len() == 1 ==> !(variable@.0[0].1 is Foreach) && is_absolute(variable@.0[0].0),
        current.line_index@ == current.bytes(),
    ensures
        variable@.0.len() != 1 ==> (r matches Some(p) && lines_view(p@) == variable_help(
            name@,
            variable@,
            current.bytes(),
            workspace_root@,
        )),
        variable@.0.len() == 1 && variable@.0[0].0 == current.path@ ==> {
            &&& r is Some <==> fits(variable@.0[0], current.bytes().len())
            &&& r matches Some(p) ==> lines_view(p@) == variable_help(name@, variable@, current.bytes(), workspace_root@)
        },
        variable@.0.len() == 1 && variable@.0[0].0 != current.path@ ==> match storage.entry(variable@.0[0].0) {
            Some(e) => {
                let text = vstd::utf8::encode_utf8(e.0);
                &&& r is Some <==> fits(variable@.0[0], text.len())
                &&& r matches Some(p) ==> lines_view(p@) == variable_help(name@, variable@, text, workspace_root@)
            },
            None => true,
        },
        r matches Some(p) ==> exists|text: Seq<u8>| lines_view(p@) == #[trigger] variable_help(name@, variable@, text, workspace_root@),
{
    if variable.assignments.len() != 1 {
        return format_variable_help(name, variable, current, workspace_root);
    }
    let path = variable.assignments[0].path.as_slice();
    assert(path@ == variable@.0[0].0);
    if crate::storage::bytes_eq(path, current.path.as_slice()) {
        return format_variable_help(name, variable, current, workspace_root);
    }
    match storage.read(path) {
        Ok(document) => format_variable_help(name, variable, &document, workspace_root),
        Err(_) => None,
    }
}

/// The help paragraphs of `template`. The text of the file that defines it
/// comes from `current` when it is that file, else from `storage`; nothing
/// when that file cannot be read.
pub fn template_help_for(
    template: &Template,
    current: &Document,
    storage: &DocumentStorage,
    workspace_root: &[u8],
) -> (r: Option<Vec<Vec<u8>>>)
    requires
        is_absolute(template@.0),
        current.line_index@ == current.bytes(),
    ensures
        template@.0 == current.path@ ==> (r matches Some(p) && lines_view(p@) == template_help(
            template@,
            current.bytes(),
            workspace_root@,
        )),
        template@.0 != current.path@ ==> match storage.entry(template@.0) {
            Some(e) => r matches Some(p) && lines_view(p@) == template_help(
                template@,
                vstd::utf8::encode_utf8(e.0),
                workspace_root@,
            ),
            None => true,
        },
        r matches Some(p) ==> exists|text: Seq<u8>| lines_view(p@) == #[trigger] template_help(template@, text, workspace_root@),
{
    if crate::storage::bytes_eq(template.path.as_slice(), current.path.as_slice()) {
        return Some(format_template_help(template, current, workspace_root));
    }
    match storage.read(template.path.as_slice()) {
        Ok(document) => Some(format_template_help(template, &document, workspace_root)),
        Err(_) => None,
    }
}

/// The line between two sections of a hover: `---`.
pub open spec fn rule_line() -> Seq<u8> {
    seq![45u8, 45u8, 45u8]
}

/// The sections that are there, in order.
pub open spec fn present(sections: Seq<Option<Seq<Seq<u8>>>>) -> Seq<Seq<Seq<u8>>>
    decreases sections.len(),
{
    if sections.len() == 0 {
        seq![]
    } else {
        let rest = present(sections.drop_last());
        match sections.last() {
            Some(p) => rest.push(p),
            None => rest,
        }
    }
}

/// Sections one after another, with a rule line between two of them.
pub open spec fn joined(sections: Seq<Seq<Seq<u8>>>) -> Seq<Seq<u8>>
    decreases sections.len(),
{
    if sections.len() == 0 {
        seq![]
    } else if sections.len() == 1 {
        sections[0]
    } else {
        joined(sections.drop_last()).push(rule_line()) + sections.last()
    }
}

/// What a hover shows: the help of the template, the help of the variable
/// and the documentation of the built-in name, those that there are, with a
/// rule line between two of them; nothing when there is none.
pub open spec fn hover_text(
    template: Option<Seq<Seq<u8>>>,
    variable: Option<Seq<Seq<u8>>>,
    builtin: Option<Seq<u8>>,
) -> Option<Seq<Seq<u8>>> {
    let doc: Option<Seq<Seq<u8>>> = match builtin {
        Some(d) => Some(seq![d]),
        None => None,
    };
    let sections = present(seq![template, variable, doc]);
    if sections.len() == 0 {
        None
    } else {
        Some(joined(sections))
    }
}

/// The paragraphs of a hover from its sections: the help of the template,
/// the help of the variable and the documentation of the built-in name.
pub fn hover_sections(
    template: Option<Vec<Vec<u8>>>,
    variable: Option<Vec<Vec<u8>>>,
    builtin: Option<&str>,
) -> (r: Option<Vec<Vec<u8>>>)
    ensures
        match r {
            Some(p) => hover_text(opt_lines(template), opt_lines(variable), opt_text(builtin)) == Some(lines_view(p@)),
            None => hover_text(opt_lines(template), opt_lines(variable), opt_text(builtin)) is None,
        },
{
    let ghost t = opt_lines(template);
    let ghost v = opt_lines(variable);
    let ghost d: Option<Seq<Seq<u8>>> = match opt_text(builtin) {
        Some(x) => Some(seq![x]),
        None => None,
    };
    let ghost secs = seq![t, v, d];
    proof {
        assert(secs.take(1).drop_last() =~= secs.take(0));
        assert(secs.take(2).drop_last() =~= secs.take(1));
        assert(secs.take(3).drop_last() =~= secs.take(2));
        assert(secs.take(3) =~= secs);
        assert(present(secs.take(0)) =~= Seq::<Seq<Seq<u8>>>::empty());
    }
    let mut out: Vec<Vec<u8>> = Vec::new();
    let mut any = false;
    assert(lines_view(out@) =~= joined(present(secs.take(0))));
    let ghost s0 = present(secs.take(0));
    match template {
        Some(p) => {
            proof {
                lemma_joined_push(s0, lines_view(p@));
            }
            append_section(&mut out, p, any);
            any = true;
        },
        None => {},
    }
    assert(secs.take(1).last() == t);
    let ghost s1 = present(secs.take(1));
    assert(lines_view(out@) == joined(s1));
    assert(any == (s1.len() > 0));
    match variable {
        Some(p) => {
            proof {
                lemma_joined_push(s1, lines_view(p@));
            }
            append_section(&mut out, p, any);
            any = true;
        },
        None => {},
    }
    assert(secs.take(2).last() == v);
    let ghost s2 = present(secs.take(2));
    assert(lines_view(out@) == joined(s2));
    assert(any == (s2.len() > 0));
    match builtin {
        Some(doc) => {
            let mut line: Vec<u8> = Vec::new();
            append_bytes(&mut line, doc.as_bytes());
            let mut p: Vec<Vec<u8>> = Vec::new();
            p.push(line);
            proof {
                assert(line@ =~= doc.spec_bytes());
                assert(lines_view(p@) =~= seq![doc.spec_bytes()]);
                lemma_joined_push(s2, lines_view(p@));
            }
            append_section(&mut out, p, any);
            any = true;
        },
        None => {},
    }
    assert(secs.take(3).last() == d);
    let ghost s3 = present(secs.take(3));
    assert(lines_view(out@) == joined(s3));
    assert(any == (s3.len() > 0));
    if any {
        Some(out)
    } else {
        None
    }
}

/// One more section.
proof fn lemma_joined_push(s: Seq<Seq<Seq<u8>>>, p: Seq<Seq<u8>>)
    ensures
        joined(s.push(p)) == if s.len() == 0 {
            p
        } else {
            joined(s).push(rule_line()) + p
        },
{
    assert(s.push(p).drop_last() =~= s);
    if s.len() == 0 {
        assert(s.push(p)[0] == p);
    }
}

/// The paragraphs of an optional section, as byte strings.
pub open spec fn opt_lines(p: Option<Vec<Vec<u8>>>) -> Option<Seq<Seq<u8>>> {
    match p {
        Some(v) => Some(lines_view(v@)),
        None => None,
    }
}

/// The bytes of an optional text.
pub open spec fn opt_text(t: Option<&str>) -> Option<Seq<u8>> {
    match t {
        Some(s) => Some(s.spec_bytes()),
        None => None,
    }
}

/// Appends a section to the sections in `out`, after a rule line when
/// there are sections before it.
fn append_section(out: &mut Vec<Vec<u8>>, section: Vec<Vec<u8>>, after: bool)
    ensures
        lines_view(final(out)@) == if after {
            lines_view(old(out)@).push(rule_line()) + lines_view(section@)
        } else {
            lines_view(old(out)@) + lines_view(section@)
        },
{
    if after {
        let ghost before = lines_view(out@);
        out.push(vec![45u8, 45u8, 45u8]);
        proof {
            assert(lines_view(out@) =~= before.push(rule_line()));
        }
    }
    let ghost start = lines_view(out@);
    let mut i: usize = 0;
    while i < section.len()
        invariant
            i <= section@.len(),
            lines_view(out@) == start + lines_view(section@).take(i as int),
        decreases section.len() - i,
    {
        let ghost prev = lines_view(out@);
        let line = copy_range(section[i].as_slice(), 0, section[i].len());
        assert(line@ =~= section@[i as int]@);
        out.push(line);
        proof {
            assert(lines_view(section@).take(i + 1) =~= lines_view(section@).take(i as int).push(section@[i as int]@));
            assert(lines_view(out@) =~= prev.push(section@[i as int]@));
        }
        i += 1;
    }
    proof {
        assert(lines_view(section@).take(section@.len() as int) =~= lines_view(section@));
    }
}

} // verus!
