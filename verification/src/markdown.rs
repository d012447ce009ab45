//! The text-document indexer's computations: which file names count as
//! text documents, the preview (first non-blank lines, capped) and
//! approximate word count taken from the head of a file, and the ordering
//! of the index.  The caller walks the folder and reads at most the first
//! 8 KiB of each file.

use vstd::multiset::Multiset;
use vstd::prelude::*;
use vstd::string::{StrSliceExecFns, StringExecFns};

use crate::text::lemma_lex_le_total;
use crate::text::lemma_lex_le_trans;
use crate::text::lex_le;
use crate::text::str_eq;
use crate::text::str_le;

verus! {

/// One indexed document: where it lives, what it is called, and a light
/// preview of its contents.
#[derive(Clone, Debug)]
pub struct MarkdownFileInfo {
    pub path: String,
    pub relative_path: String,
    pub name: String,
    pub size: u64,
    pub modified: String,
    pub preview: String,
    pub word_count: u32,
}

/// The Unicode lowercasing of a character sequence.
pub uninterp spec fn lower_of(s: Seq<char>) -> Seq<char>;

/// Relies on str::to_lowercase: the result depends on the characters alone.
#[verifier::external_body]
fn lowercase(s: &str) -> (r: String)
    ensures
        r@ == lower_of(s@),
{
    s.to_lowercase()
}

/// The characters that a byte sequence decodes to, with invalid bytes
/// replaced.
pub uninterp spec fn utf8_lossy_of(b: Seq<u8>) -> Seq<char>;

/// Relies on String::from_utf8_lossy: the result depends on the bytes
/// alone, and every decoded character consumes at least one byte, so the
/// result is never longer than the input.
#[verifier::external_body]
fn utf8_lossy(bytes: &Vec<u8>) -> (r: String)
    ensures
        r@ == utf8_lossy_of(bytes@),
        r@.len() <= bytes@.len(),
{
    String::from_utf8_lossy(bytes).to_string()
}

/// Whether a character has the Unicode white-space property.
pub uninterp spec fn is_unicode_whitespace(c: char) -> bool;

/// Relies on char::is_whitespace: the Unicode white-space property of the
/// character.
#[verifier::external_body]
fn char_is_whitespace(c: char) -> (r: bool)
    ensures
        r == is_unicode_whitespace(c),
{
    c.is_whitespace()
}

/// Relies on chrono's DateTime::from_timestamp, with_timezone and
/// to_rfc3339: renders a timestamp in the machine's local time zone.  The
/// offset depends on the environment, so nothing is promised of the text;
/// timestamps chrono reports as out of range yield the empty string.
#[verifier::external_body]
fn rfc3339_local(secs: i64, nanos: u32) -> (r: String) {
    chrono::DateTime::<chrono::Utc>::from_timestamp(secs, nanos).map(
        |dt| dt.with_timezone(&chrono::Local).to_rfc3339(),
    ).unwrap_or_default()
}

/// The file extensions that mark a text document.
pub open spec fn spec_is_markdown_ext(e: Seq<char>) -> bool {
    lower_of(e) == "md"@ || lower_of(e) == "markdown"@ || lower_of(e) == "mdx"@
}

/// Decides, case-insensitively, whether a file extension marks a document
/// that belongs in the index.
pub fn is_markdown_extension(ext: &str) -> (r: bool)
    ensures
        r == spec_is_markdown_ext(ext@),
{
    let low = lowercase(ext);
    str_eq(low.as_str(), "md") || str_eq(low.as_str(), "markdown") || str_eq(low.as_str(), "mdx")
}

/// How many words the text holds: maximal runs of non-white-space
/// characters.
pub open spec fn spec_word_count(s: Seq<char>) -> int
    decreases s.len(),
{
    if s.len() == 0 {
        0
    } else {
        spec_word_count(s.drop_last()) + if !is_unicode_whitespace(s.last()) && (s.len() == 1
            || is_unicode_whitespace(s[s.len() - 2])) {
            1int
        } else {
            0
        }
    }
}

/// Counts the words of the text: maximal runs of non-white-space
/// characters.
pub fn word_count(text: &str) -> (n: u32)
    requires
        text@.len() <= u32::MAX,
    ensures
        n == spec_word_count(text@),
{
    let len = text.unicode_len();
    let mut n: u32 = 0;
    let mut prev_ws = true;
    let mut i: usize = 0;
    while i < len
        invariant
            len == text@.len(),
            text@.len() <= u32::MAX,
            i <= len,
            n == spec_word_count(text@.take(i as int)),
            n <= i,
            prev_ws == (i == 0 || is_unicode_whitespace(text@[i as int - 1])),
        decreases len - i,
    {
        proof {
            assert(text@.take(i as int + 1).drop_last() =~= text@.take(i as int));
            assert(text@.take(i as int + 1).last() == text@[i as int]);
            if i > 0 {
                assert(text@.take(i as int + 1)[i as int - 1] == text@[i as int - 1]);
            }
        }
        let c = text.get_char(i);
        let ws = char_is_whitespace(c);
        if !ws && prev_ws {
            n = n + 1;
        }
        prev_ws = ws;
        i = i + 1;
    }
    proof {
        assert(text@.take(text@.len() as int) =~= text@);
    }
    n
}

/// The index of the first line feed, or the length when there is none.
pub open spec fn find_nl(s: Seq<char>) -> int
    decreases s.len(),
{
    if s.len() == 0 {
        0
    } else if s[0] == '\n' {
        0
    } else {
        1 + find_nl(s.drop_first())
    }
}

proof fn lemma_find_nl_bounds(s: Seq<char>)
    ensures
        0 <= find_nl(s) <= s.len(),
        find_nl(s) < s.len() ==> s[find_nl(s)] == '\n',
        forall|j: int| 0 <= j < find_nl(s) ==> s[j] != '\n',
    decreases s.len(),
{
    if s.len() > 0 && s[0] != '\n' {
        lemma_find_nl_bounds(s.drop_first());
        assert forall|j: int| 0 <= j < find_nl(s) implies s[j] != '\n' by {
            if j > 0 {
                assert(s.drop_first()[j - 1] == s[j]);
            }
        }
    }
}

proof fn lemma_find_nl_is(s: Seq<char>, k: int)
    requires
        0 <= k <= s.len(),
        forall|j: int| 0 <= j < k ==> s[j] != '\n',
        k < s.len() ==> s[k] == '\n',
    ensures
        find_nl(s) == k,
    decreases s.len(),
{
    if s.len() > 0 && s[0] != '\n' {
        lemma_find_nl_is(s.drop_first(), k - 1);
    }
}

/// A line terminated by a line feed loses one trailing carriage return.
pub open spec fn strip_cr(l: Seq<char>) -> Seq<char> {
    if l.len() > 0 && l.last() == '\r' {
        l.drop_last()
    } else {
        l
    }
}

/// The lines of the text, split at line feeds: a terminated line loses its
/// terminator and one trailing carriage return, an unterminated final line
/// is kept whole, and a trailing line feed opens no further line.
pub open spec fn spec_lines(s: Seq<char>) -> Seq<Seq<char>>
    decreases s.len(),
    via spec_lines_dec
{
    if s.len() == 0 {
        Seq::empty()
    } else {
        let k = find_nl(s);
        if k == s.len() {
            seq![s]
        } else {
            seq![strip_cr(s.take(k))] + spec_lines(s.skip(k + 1))
        }
    }
}

#[via_fn]
proof fn spec_lines_dec(s: Seq<char>) {
    lemma_find_nl_bounds(s);
}

/// A line is blank when every character on it is white space.
pub open spec fn is_blank(l: Seq<char>) -> bool {
    forall|i: int| 0 <= i < l.len() ==> is_unicode_whitespace(#[trigger] l[i])
}

/// The first `n` non-blank lines, in order.
pub open spec fn first_nonblank(lines: Seq<Seq<char>>, n: int) -> Seq<Seq<char>>
    decreases lines.len(),
{
    if lines.len() == 0 || n <= 0 {
        Seq::empty()
    } else if !is_blank(lines[0]) {
        seq![lines[0]] + first_nonblank(lines.drop_first(), n - 1)
    } else {
        first_nonblank(lines.drop_first(), n)
    }
}

/// The lines joined by line feeds.
pub open spec fn join_nl(ls: Seq<Seq<char>>) -> Seq<char>
    decreases ls.len(),
{
    if ls.len() == 0 {
        Seq::empty()
    } else if ls.len() == 1 {
        ls[0]
    } else {
        ls[0] + "\n"@ + join_nl(ls.drop_first())
    }
}

/// The preview of a text: its first three non-blank lines joined by line
/// feeds, capped at two hundred characters with an ellipsis appended.
pub open spec fn spec_preview(s: Seq<char>) -> Seq<char> {
    let joined = join_nl(first_nonblank(spec_lines(s), 3));
    if joined.len() > 200 {
        joined.take(200) + "\u{2026}"@
    } else {
        joined
    }
}

/// Splits the text into lines from character position `from` on.
fn split_lines_from(text: &str, from: usize) -> (r: Vec<String>)
    requires
        from <= text@.len(),
    ensures
        crate::text::string_views(r@) == spec_lines(text@.skip(from as int)),
    decreases text@.len() - from,
{
    let len = text.unicode_len();
    let ghost tail = text@.skip(from as int);
    if from == len {
        let r: Vec<String> = Vec::new();
        proof {
            assert(tail.len() == 0);
            assert(crate::text::string_views(r@) =~= spec_lines(tail));
        }
        return r;
    }
    let mut i: usize = from;
    while i < len && text.get_char(i) != '\n'
        invariant
            from <= i <= len,
            len == text@.len(),
            forall|j: int| from <= j < i ==> text@[j] != '\n',
        decreases len - i,
    {
        i = i + 1;
    }
    proof {
        assert forall|j: int| 0 <= j < i - from implies tail[j] != '\n' by {
            assert(tail[j] == text@[from + j]);
        }
        if i < len {
            assert(tail[i - from] == text@[i as int]);
        }
        lemma_find_nl_is(tail, i - from as int);
    }
    if i == len {
        let line = text.substring_char(from, len);
        let mut r: Vec<String> = Vec::new();
        r.push(String::from_str(line));
        proof {
            assert(line@ =~= tail);
            assert(crate::text::string_views(r@) =~= seq![tail]);
            assert(spec_lines(tail) == seq![tail]);
        }
        r
    } else {
        let end: usize = if i > from && text.get_char(i - 1) == '\r' {
            i - 1
        } else {
            i
        };
        let line = text.substring_char(from, end);
        let mut rest = split_lines_from(text, i + 1);
        let ghost rest_views = crate::text::string_views(rest@);
        rest.insert(0, String::from_str(line));
        proof {
            let k = i - from as int;
            assert(tail.take(k) =~= text@.subrange(from as int, i as int));
            assert(line@ =~= strip_cr(tail.take(k))) by {
                if i > from && text@[i as int - 1] == '\r' {
                    assert(tail.take(k).len() > 0);
                    assert(tail.take(k).last() == text@[i as int - 1]);
                    assert(line@ =~= tail.take(k).drop_last());
                } else {
                    if tail.take(k).len() > 0 {
                        assert(tail.take(k).last() == text@[i as int - 1]);
                    }
                }
            }
            assert(text@.skip(i as int + 1) =~= tail.skip(k + 1));
            assert(crate::text::string_views(rest@) =~= seq![strip_cr(tail.take(k))]
                + rest_views);
            assert(spec_lines(tail) == seq![strip_cr(tail.take(k))] + spec_lines(
                tail.skip(k + 1),
            ));
        }
        rest
    }
}

/// Splits the text into its lines.
pub fn split_lines(text: &str) -> (r: Vec<String>)
    ensures
        crate::text::string_views(r@) == spec_lines(text@),
{
    let r = split_lines_from(text, 0);
    proof {
        assert(text@.skip(0) =~= text@);
    }
    r
}

/// Decides whether a line is blank.
pub fn is_blank_line(line: &str) -> (r: bool)
    ensures
        r == is_blank(line@),
{
    let len = line.unicode_len();
    let mut i: usize = 0;
    while i < len
        invariant
            len == line@.len(),
            i <= len,
            forall|j: int| 0 <= j < i ==> is_unicode_whitespace(#[trigger] line@[j]),
        decreases len - i,
    {
        if !char_is_whitespace(line.get_char(i)) {
            return false;
        }
        i = i + 1;
    }
    true
}

/// Collects the first `n` non-blank lines, from position `from` on.
fn take_nonblank(lines: &Vec<String>, from: usize, n: usize) -> (r: Vec<String>)
    requires
        from <= lines@.len(),
    ensures
        crate::text::string_views(r@) == first_nonblank(
            crate::text::string_views(lines@).skip(from as int),
            n as int,
        ),
    decreases lines@.len() - from,
{
    let ghost tail = crate::text::string_views(lines@).skip(from as int);
    if from == lines.len() || n == 0 {
        let r: Vec<String> = Vec::new();
        proof {
            assert(crate::text::string_views(r@) =~= first_nonblank(tail, n as int));
        }
        return r;
    }
    proof {
        assert(tail[0] == lines@[from as int]@);
        assert(tail.drop_first() =~= crate::text::string_views(lines@).skip(from as int + 1));
    }
    if is_blank_line(lines[from].as_str()) {
        take_nonblank(lines, from + 1, n)
    } else {
        let mut rest = take_nonblank(lines, from + 1, n - 1);
        let ghost rest_views = crate::text::string_views(rest@);
        rest.insert(0, lines[from].clone());
        proof {
            assert(crate::text::string_views(rest@) =~= seq![lines@[from as int]@] + rest_views);
        }
        rest
    }
}

/// Joins lines with line feeds, from position `from` on.
fn join_lines(ls: &Vec<String>, from: usize) -> (r: String)
    requires
        from <= ls@.len(),
    ensures
        r@ == join_nl(crate::text::string_views(ls@).skip(from as int)),
    decreases ls@.len() - from,
{
    let ghost tail = crate::text::string_views(ls@).skip(from as int);
    if from == ls.len() {
        proof {
            assert(tail.len() == 0);
        }
        String::new()
    } else if from + 1 == ls.len() {
        proof {
            assert(tail[0] == ls@[from as int]@);
        }
        ls[from].clone()
    } else {
        let rest = join_lines(ls, from + 1);
        let r = ls[from].clone().concat("\n").concat(rest.as_str());
        proof {
            assert(tail[0] == ls@[from as int]@);
            assert(tail.drop_first() =~= crate::text::string_views(ls@).skip(from as int + 1));
            assert(r@ =~= tail[0] + "\n"@ + join_nl(tail.drop_first()));
        }
        r
    }
}

/// The preview and estimated word count of the head of a document: the
/// first three non-blank lines, joined and capped at two hundred characters
/// with an ellipsis, and the count of white-space-separated words.
pub fn read_preview(head: &Vec<u8>) -> (r: (String, u32))
    requires
        head@.len() <= 8192,
    ensures
        r.0@ == spec_preview(utf8_lossy_of(head@)),
        r.1 == spec_word_count(utf8_lossy_of(head@)),
{
    let text = utf8_lossy(head);
    let n = word_count(text.as_str());
    let lines = split_lines(text.as_str());
    let picked = take_nonblank(&lines, 0, 3);
    let joined = join_lines(&picked, 0);
    proof {
        assert(crate::text::string_views(lines@).skip(0) =~= crate::text::string_views(lines@));
        assert(crate::text::string_views(picked@).skip(0) =~= crate::text::string_views(picked@));
    }
    let preview = if joined.as_str().unicode_len() > 200 {
        let t = joined.as_str().substring_char(0, 200);
        String::from_str(t).concat("\u{2026}")
    } else {
        joined
    };
    (preview, n)
}

/// The observable content of one indexed document, save its local-time
/// modification stamp.
pub open spec fn md_model(f: MarkdownFileInfo) -> (
    Seq<char>,
    Seq<char>,
    Seq<char>,
    u64,
    Seq<char>,
    u32,
) {
    (f.path@, f.relative_path@, f.name@, f.size, f.preview@, f.word_count)
}

pub open spec fn md_models(s: Seq<MarkdownFileInfo>) -> Seq<
    (Seq<char>, Seq<char>, Seq<char>, u64, Seq<char>, u32),
> {
    s.map_values(|f: MarkdownFileInfo| md_model(f))
}

/// Documents in lexicographic order of their relative paths.
pub open spec fn sorted_by_relative_path(s: Seq<MarkdownFileInfo>) -> bool {
    forall|i: int, j: int|
        0 <= i < j < s.len() ==> lex_le(s[i].relative_path@, s[j].relative_path@)
}

/// Assembles one index entry from what the caller read of a document: its
/// paths and size, its modification time (rendered in local time, of which
/// nothing further is promised), and the first 8 KiB of its contents.
pub fn make_markdown_file_info(
    path: String,
    relative_path: String,
    name: String,
    size: u64,
    modified: Option<(i64, u32)>,
    head: &Vec<u8>,
) -> (f: MarkdownFileInfo)
    requires
        head@.len() <= 8192,
    ensures
        f.path@ == path@,
        f.relative_path@ == relative_path@,
        f.name@ == name@,
        f.size == size,
        f.preview@ == spec_preview(utf8_lossy_of(head@)),
        f.word_count == spec_word_count(utf8_lossy_of(head@)),
{
    let (preview, wc) = read_preview(head);
    let modified_text = match modified {
        Some((s, n)) => rfc3339_local(s, n),
        None => String::new(),
    };
    MarkdownFileInfo {
        path,
        relative_path,
        name,
        size,
        modified: modified_text,
        preview,
        word_count: wc,
    }
}

/// Reorders the index entries by relative path.
pub fn sort_markdown_files(v: Vec<MarkdownFileInfo>) -> (r: Vec<MarkdownFileInfo>)
    ensures
        sorted_by_relative_path(r@),
        md_models(r@).to_multiset() == md_models(v@).to_multiset(),
{
    let ghost all = md_models(v@).to_multiset();
    let mut rem = v;
    let mut out: Vec<MarkdownFileInfo> = Vec::new();
    proof {
        broadcast use vstd::seq_lib::group_to_multiset_ensures;
        broadcast use vstd::multiset::group_multiset_axioms;
        broadcast use vstd::multiset::lemma_multiset_empty_len;

        assert(md_models(out@).to_multiset().len() == 0);
        assert(md_models(out@).to_multiset().add(md_models(rem@).to_multiset()) =~= all);
    }
    while rem.len() > 0
        invariant
            md_models(out@).to_multiset().add(md_models(rem@).to_multiset()) == all,
            sorted_by_relative_path(out@),
            forall|p: int, q: int|
                0 <= p < out@.len() && 0 <= q < rem@.len() ==> lex_le(
                    out@[p].relative_path@,
                    rem@[q].relative_path@,
                ),
        decreases rem@.len(),
    {
        let mut mi: usize = 0;
        let mut k: usize = 1;
        proof {
            lemma_lex_le_total(rem@[0].relative_path@, rem@[0].relative_path@);
        }
        while k < rem.len()
            invariant
                rem@.len() > 0,
                mi < k,
                k <= rem@.len(),
                forall|j: int|
                    0 <= j < k ==> lex_le(
                        rem@[mi as int].relative_path@,
                        (#[trigger] rem@[j]).relative_path@,
                    ),
            decreases rem@.len() - k,
        {
            if !str_le(rem[mi].relative_path.as_str(), rem[k].relative_path.as_str()) {
                proof {
                    lemma_lex_le_total(rem@[mi as int].relative_path@, rem@[k as int].relative_path@);
                    assert forall|j: int| 0 <= j < k + 1 implies lex_le(
                        rem@[k as int].relative_path@,
                        (#[trigger] rem@[j]).relative_path@,
                    ) by {
                        if j < k {
                            lemma_lex_le_trans(
                                rem@[k as int].relative_path@,
                                rem@[mi as int].relative_path@,
                                rem@[j].relative_path@,
                            );
                        } else {
                            lemma_lex_le_total(
                                rem@[k as int].relative_path@,
                                rem@[k as int].relative_path@,
                            );
                        }
                    }
                }
                mi = k;
            } else {
                proof {
                    lemma_lex_le_total(rem@[k as int].relative_path@, rem@[k as int].relative_path@);
                }
            }
            k = k + 1;
        }
        let ghost rem_before = rem@;
        let x = rem.remove(mi);
        proof {
            broadcast use vstd::seq_lib::group_to_multiset_ensures;
            broadcast use vstd::multiset::group_multiset_axioms;

            assert(md_models(rem@) =~= md_models(rem_before).remove(mi as int));
            assert(md_models(rem_before)[mi as int] == md_model(x));
            assert(md_models(rem_before).remove(mi as int).to_multiset() == md_models(
                rem_before,
            ).to_multiset().remove(md_model(x)));
            assert(md_models(rem_before).contains(md_model(x)));
            assert(md_models(rem_before).to_multiset().count(md_model(x)) >= 1);
        }
        let ghost out_before = out@;
        out.push(x);
        proof {
            broadcast use vstd::seq_lib::group_to_multiset_ensures;
            broadcast use vstd::multiset::group_multiset_axioms;

            assert(md_models(out@) =~= md_models(out_before).push(md_model(x)));
            assert(md_models(out@).to_multiset() == md_models(out_before).to_multiset().insert(
                md_model(x),
            ));
            assert(md_models(out@).to_multiset().add(md_models(rem@).to_multiset()) =~= md_models(
                out_before,
            ).to_multiset().add(md_models(rem_before).to_multiset()));
            assert(forall|q: int|
                0 <= q < rem@.len() ==> lex_le(
                    out@[out@.len() - 1].relative_path@,
                    (#[trigger] rem@[q]).relative_path@,
                )) by {
                assert(forall|j: int|
                    0 <= j < rem_before.len() ==> lex_le(
                        rem_before[mi as int].relative_path@,
                        (#[trigger] rem_before[j]).relative_path@,
                    ));
            }
        }
    }
    proof {
        broadcast use vstd::seq_lib::group_to_multiset_ensures;
        broadcast use vstd::multiset::group_multiset_axioms;
        broadcast use vstd::multiset::lemma_multiset_empty_len;

        assert(md_models(rem@).to_multiset().len() == 0);
        assert(md_models(rem@).to_multiset() =~= Multiset::empty());
        assert(md_models(out@).to_multiset() =~= all);
    }
    out
}

} // verus!
