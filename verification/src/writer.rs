//! The annotation writer: patch audit findings into the three internal
//! parts of a document archive and repackage it, atomically from the
//! caller's perspective. One marker per issue goes immediately before the
//! body's closing tag; one comment entry per issue, under the same id, goes
//! before the comments part's closing tag; the relationships part gains a
//! pointer at the comments part exactly once.

use vstd::prelude::*;

use crate::archive::{
    entries_view, read_archive, write_archive, zip_encode, zip_entries, ArchiveEntry, EntryV,
};
use crate::errors::{DocError, ErrorKind};
use crate::grpc::{issues_view, Issue, IssueV};
use crate::textutil::{
    chars_string, contains, contains_sub, dec_digits, matches_at, rfind, rfind_sub, str_chars,
    str_eq, u64_digits,
};
use vstd::utf8::{decode_utf8, encode_utf8, valid_utf8};

verus! {

// ---------------------------------------------------------------------------
// Escaping and the clock: the two outside calls of this stage.
// ---------------------------------------------------------------------------

/// A message with the markup-significant characters replaced by entities.
pub open spec fn escape_text(s: Seq<char>) -> Seq<char>
    decreases s.len(),
{
    if s.len() == 0 {
        Seq::empty()
    } else {
        (if s[0] == '&' {
            "&amp;"@
        } else if s[0] == '<' {
            "&lt;"@
        } else if s[0] == '>' {
            "&gt;"@
        } else {
            seq![s[0]]
        }) + escape_text(s.drop_first())
    }
}

/// Relies on html_escape::encode_text: it replaces exactly `&`, `<` and `>`
/// with their entities and keeps every other character.
#[verifier::external_body]
fn escape_message(s: &str) -> (r: String)
    ensures
        r@ == escape_text(s@),
{
    html_escape::encode_text(s).to_string()
}

/// Relies on chrono::Utc::now and its formatter for the comment timestamp.
/// The value depends on the clock, so nothing is promised of it.
#[verifier::external_body]
fn now_timestamp() -> String {
    chrono::Utc::now().format("%Y-%m-%dT%H:%M:%SZ").to_string()
}

// ---------------------------------------------------------------------------
// The generated fragments.
// ---------------------------------------------------------------------------

/// The ids handed to one batch of `n` issues: consecutive from `start`.
pub open spec fn id_seq(start: int, n: int) -> Seq<int> {
    Seq::new(n as nat, |i: int| start + i)
}

/// One in-content comment marker.
pub open spec fn marker_xml(id: int) -> Seq<char> {
    "<w:commentReference w:id=\""@ + dec_digits(id) + "\"/>"@
}

/// The markers of a batch, space-separated.
pub open spec fn markers_join(ids: Seq<int>) -> Seq<char>
    decreases ids.len(),
{
    if ids.len() == 0 {
        Seq::empty()
    } else if ids.len() == 1 {
        marker_xml(ids[0])
    } else {
        marker_xml(ids[0]) + " "@ + markers_join(ids.drop_first())
    }
}

/// The content part with the whole marker batch inserted immediately before
/// the body's closing tag; unchanged when the batch is empty or no closing
/// tag is found.
pub open spec fn patch_document(doc: Seq<char>, start: int, n: int) -> Seq<char> {
    if n == 0 {
        doc
    } else {
        match rfind_sub(doc, "</w:body>"@) {
            None => doc,
            Some(p) => doc.take(p) + " "@ + markers_join(id_seq(start, n)) + doc.skip(p),
        }
    }
}

/// One comment entry: the same id as its marker, an author label, a
/// timestamp and the escaped message.
pub open spec fn comment_xml(id: int, author: Seq<char>, ts: Seq<char>, msg: Seq<char>) -> Seq<
    char,
> {
    "\n    <w:comment w:id=\""@ + dec_digits(id) + "\" w:author=\""@ + author + "\" w:date=\""@
        + ts
        + "\">\n        <w:p>\n            <w:pPr>\n                <w:pStyle w:val=\"CommentText\"/>\n            </w:pPr>\n            <w:r>\n                <w:rPr>\n                    <w:rStyle w:val=\"CommentReference\"/>\n                </w:rPr>\n                <w:t>"@
        + escape_text(msg)
        + "</w:t>\n            </w:r>\n        </w:p>\n    </w:comment>"@
}

/// The comment entries of a batch, in call order, ids aligned with the
/// markers.
pub open spec fn comments_blocks(
    issues: Seq<IssueV>,
    start: int,
    author: Seq<char>,
    ts: Seq<char>,
) -> Seq<char>
    decreases issues.len(),
{
    if issues.len() == 0 {
        Seq::empty()
    } else {
        comment_xml(start, author, ts, issues[0].message) + comments_blocks(
            issues.drop_first(),
            start + 1,
            author,
            ts,
        )
    }
}

/// The minimal valid empty comments part.
pub open spec fn comments_skeleton() -> Seq<char> {
    "<?xml version=\"1.0\" encoding=\"UTF-8\" standalone=\"yes\"?>\n<w:comments xmlns:w=\"http://schemas.openxmlformats.org/wordprocessingml/2006/main\">\n</w:comments>"@
}

/// The comments part with the batch appended immediately before its closing
/// tag; unchanged when the batch is empty or no closing tag is found.
pub open spec fn patch_comments(
    content: Seq<char>,
    issues: Seq<IssueV>,
    start: int,
    author: Seq<char>,
    ts: Seq<char>,
) -> Seq<char> {
    if issues.len() == 0 {
        content
    } else {
        match rfind_sub(content, "</w:comments>"@) {
            None => content,
            Some(p) => content.take(p) + comments_blocks(issues, start, author, ts)
                + content.skip(p),
        }
    }
}

/// The minimal valid empty relationships part.
pub open spec fn rels_skeleton() -> Seq<char> {
    "<?xml version=\"1.0\" encoding=\"UTF-8\" standalone=\"yes\"?>\n<Relationships xmlns=\"http://schemas.openxmlformats.org/package/2006/relationships\">\n</Relationships>"@
}

/// The relationship entry pointing at the comments part.
pub open spec fn comments_rel() -> Seq<char> {
    "\n    <Relationship Id=\"rIdComments\" Type=\"http://schemas.openxmlformats.org/officeDocument/2006/relationships/comments\" Target=\"comments.xml\"/>"@
}

/// The relationships part with the comments relationship ensured:
/// unchanged when one is already mentioned, so adding it is idempotent.
pub open spec fn patch_rels(content: Seq<char>) -> Seq<char> {
    if contains_sub(content, "comments.xml"@) {
        content
    } else {
        match rfind_sub(content, "</Relationships>"@) {
            None => content,
            Some(p) => content.take(p) + comments_rel() + content.skip(p),
        }
    }
}

// ---------------------------------------------------------------------------
// The entry-list transformation.
// ---------------------------------------------------------------------------

/// A directory entry, kept in the scratch tree but not repackaged.
pub open spec fn is_dir_name(name: Seq<char>) -> bool {
    name.len() > 0 && name.last() == '/'
}

/// The first patched part, if any, whose text is unreadable: the write
/// aborts there. Only the three patched parts are ever decoded.
pub open spec fn annotate_error(es: Seq<EntryV>) -> Option<ErrorKind>
    decreases es.len(),
{
    if es.len() == 0 {
        None
    } else if (es[0].name == "word/document.xml"@ || es[0].name == "word/comments.xml"@
        || es[0].name == "word/_rels/document.xml.rels"@) && !valid_utf8(es[0].data) {
        Some(ErrorKind::MalformedXml)
    } else {
        annotate_error(es.drop_first())
    }
}

/// What one entry becomes: dropped for a directory, patched for the three
/// special parts, kept byte-identical otherwise. Total; an unreadable part
/// is kept unchanged here and reported through `annotate_error`.
pub open spec fn transform_entry(
    e: EntryV,
    issues: Seq<IssueV>,
    start: int,
    author: Seq<char>,
    ts: Seq<char>,
) -> Seq<EntryV> {
    if is_dir_name(e.name) {
        Seq::empty()
    } else if e.name == "word/document.xml"@ && issues.len() > 0 && valid_utf8(e.data) {
        seq![
            EntryV {
                name: e.name,
                data: encode_utf8(patch_document(decode_utf8(e.data), start, issues.len() as int)),
            },
        ]
    } else if e.name == "word/comments.xml"@ && issues.len() > 0 && valid_utf8(e.data) {
        seq![
            EntryV {
                name: e.name,
                data: encode_utf8(
                    patch_comments(decode_utf8(e.data), issues, start, author, ts),
                ),
            },
        ]
    } else if e.name == "word/_rels/document.xml.rels"@ && valid_utf8(e.data) {
        seq![EntryV { name: e.name, data: encode_utf8(patch_rels(decode_utf8(e.data))) }]
    } else {
        seq![e]
    }
}

pub open spec fn transform_entries(
    es: Seq<EntryV>,
    issues: Seq<IssueV>,
    start: int,
    author: Seq<char>,
    ts: Seq<char>,
) -> Seq<EntryV>
    decreases es.len(),
{
    if es.len() == 0 {
        Seq::empty()
    } else {
        transform_entry(es[0], issues, start, author, ts) + transform_entries(
            es.drop_first(),
            issues,
            start,
            author,
            ts,
        )
    }
}

pub open spec fn has_entry(es: Seq<EntryV>, name: Seq<char>) -> bool {
    crate::docx_parser::entry_lookup(es, name) is Some
}

/// The annotated entry list: every kept entry patched in place, a comments
/// part synthesized when none exists, the relationships part synthesized
/// when none exists.
pub open spec fn annotate_entries_spec(
    es: Seq<EntryV>,
    issues: Seq<IssueV>,
    start: int,
    author: Seq<char>,
    ts: Seq<char>,
) -> Seq<EntryV> {
    let base = transform_entries(es, issues, start, author, ts);
    let with_comments = if has_entry(es, "word/comments.xml"@) {
        base
    } else {
        base.push(
            EntryV {
                name: "word/comments.xml"@,
                data: encode_utf8(
                    patch_comments(comments_skeleton(), issues, start, author, ts),
                ),
            },
        )
    };
    if has_entry(es, "word/_rels/document.xml.rels"@) {
        with_comments
    } else {
        with_comments.push(
            EntryV {
                name: "word/_rels/document.xml.rels"@,
                data: encode_utf8(patch_rels(rels_skeleton())),
            },
        )
    }
}

// ---------------------------------------------------------------------------
// Stated laws of the writer.
// ---------------------------------------------------------------------------

/// Across one batch of N issues, exactly N ids are allocated, consecutive
/// and all distinct; the document patch inserts the markers of exactly this
/// id sequence and the comments patch appends entries of the same sequence,
/// so the same N ids appear as markers and as comment entries.
pub proof fn lemma_annotation_ids(start: int, n: int)
    requires
        n >= 0,
    ensures
        id_seq(start, n).len() == n,
        forall|i: int, j: int| 0 <= i < j < n ==> id_seq(start, n)[i] != id_seq(start, n)[j],
{
}

/// Batches drawn from a counter that only moves forward never share an id:
/// the writer's ids are process-wide unique.
pub proof fn lemma_batches_disjoint(s1: int, n1: int, s2: int, n2: int)
    requires
        0 <= n1,
        0 <= n2,
        s1 + n1 <= s2,
    ensures
        forall|i: int, j: int|
            0 <= i < n1 && 0 <= j < n2 ==> id_seq(s1, n1)[i] != id_seq(s2, n2)[j],
{
}

/// The five part names the writer and the ingestor distinguish are
/// pairwise distinct, and none names a directory.
proof fn lemma_part_names_distinct()
    ensures
        "word/document.xml"@ != "word/comments.xml"@,
        "word/document.xml"@ != "word/_rels/document.xml.rels"@,
        "word/document.xml"@ != "word/styles.xml"@,
        "word/comments.xml"@ != "word/styles.xml"@,
        "word/comments.xml"@ != "word/_rels/document.xml.rels"@,
        "word/styles.xml"@ != "word/_rels/document.xml.rels"@,
        "word/document.xml"@.len() > 0 && "word/document.xml"@.last() != '/',
        "word/styles.xml"@.len() > 0 && "word/styles.xml"@.last() != '/',
        "word/comments.xml"@.len() > 0 && "word/comments.xml"@.last() != '/',
        "word/_rels/document.xml.rels"@.len() > 0 && "word/_rels/document.xml.rels"@.last()
            != '/',
{
    reveal_strlit("word/document.xml");
    reveal_strlit("word/styles.xml");
    reveal_strlit("word/comments.xml");
    reveal_strlit("word/_rels/document.xml.rels");
    assert("word/document.xml"@[5] == 'd');
    assert("word/comments.xml"@[5] == 'c');
    assert("word/styles.xml"@[5] == 's');
    assert("word/_rels/document.xml.rels"@[5] == '_');
}

proof fn lemma_annotate_error_kind(es: Seq<EntryV>)
    ensures
        annotate_error(es) matches Some(k) ==> k == ErrorKind::MalformedXml,
    decreases es.len(),
{
    if es.len() > 0 {
        lemma_annotate_error_kind(es.drop_first());
    }
}

proof fn lemma_transform_lookup_unchanged(
    es: Seq<EntryV>,
    issues: Seq<IssueV>,
    start: int,
    author: Seq<char>,
    ts: Seq<char>,
    name: Seq<char>,
)
    requires
        issues.len() == 0,
        name == "word/document.xml"@ || name == "word/styles.xml"@,
    ensures
        crate::docx_parser::entry_lookup(
            transform_entries(es, issues, start, author, ts),
            name,
        ) == crate::docx_parser::entry_lookup(es, name),
    decreases es.len(),
{
    lemma_part_names_distinct();
    if es.len() > 0 {
        lemma_transform_lookup_unchanged(es.drop_first(), issues, start, author, ts, name);
        let head = transform_entry(es[0], issues, start, author, ts);
        let rest = transform_entries(es.drop_first(), issues, start, author, ts);
        if is_dir_name(es[0].name) {
            assert(name.last() != '/');
            assert(es[0].name != name);
            assert(head + rest =~= rest);
        } else if es[0].name == name {
            // no patching branch applies to this part under an empty batch
            assert(head =~= seq![es[0]]);
            assert((head + rest)[0] == es[0]);
            assert((head + rest).drop_first() =~= rest);
        } else {
            // the name is kept whatever the branch, so the lookup skips it
            assert(head.len() == 1 && head[0].name == es[0].name);
            assert((head + rest)[0] == head[0]);
            assert((head + rest).drop_first() =~= rest);
        }
    }
}

proof fn lemma_lookup_push_other(es: Seq<EntryV>, e: EntryV, name: Seq<char>)
    requires
        e.name != name,
    ensures
        crate::docx_parser::entry_lookup(es.push(e), name) == crate::docx_parser::entry_lookup(
            es,
            name,
        ),
    decreases es.len(),
{
    if es.len() == 0 {
        assert(es.push(e)[0] == e);
        assert(es.push(e).drop_first() =~= Seq::<EntryV>::empty());
    } else {
        assert(es.push(e)[0] == es[0]);
        assert(es.push(e).drop_first() =~= es.drop_first().push(e));
        lemma_lookup_push_other(es.drop_first(), e, name);
    }
}

/// Annotating with an empty issue list leaves the parts ingestion reads
/// byte-identical, so the output archive ingests to identical section
/// content: the round-trip identity.
pub proof fn lemma_annotate_empty_round_trip(
    es: Seq<EntryV>,
    start: int,
    author: Seq<char>,
    ts: Seq<char>,
)
    ensures
        crate::docx_parser::ingest_entries_spec(
            annotate_entries_spec(es, Seq::empty(), start, author, ts),
        ) == crate::docx_parser::ingest_entries_spec(es),
{
    lemma_part_names_distinct();
    let issues = Seq::<IssueV>::empty();
    let out = annotate_entries_spec(es, issues, start, author, ts);
    lemma_transform_lookup_unchanged(es, issues, start, author, ts, "word/document.xml"@);
    lemma_transform_lookup_unchanged(es, issues, start, author, ts, "word/styles.xml"@);
    let base = transform_entries(es, issues, start, author, ts);
    let with_comments = if has_entry(es, "word/comments.xml"@) {
        base
    } else {
        base.push(
            EntryV {
                name: "word/comments.xml"@,
                data: encode_utf8(
                    patch_comments(comments_skeleton(), issues, start, author, ts),
                ),
            },
        )
    };
    if !has_entry(es, "word/comments.xml"@) {
        lemma_lookup_push_other(
            base,
            EntryV {
                name: "word/comments.xml"@,
                data: encode_utf8(
                    patch_comments(comments_skeleton(), issues, start, author, ts),
                ),
            },
            "word/document.xml"@,
        );
        lemma_lookup_push_other(
            base,
            EntryV {
                name: "word/comments.xml"@,
                data: encode_utf8(
                    patch_comments(comments_skeleton(), issues, start, author, ts),
                ),
            },
            "word/styles.xml"@,
        );
    }
    if !has_entry(es, "word/_rels/document.xml.rels"@) {
        lemma_lookup_push_other(
            with_comments,
            EntryV { name: "word/_rels/document.xml.rels"@, data: encode_utf8(patch_rels(rels_skeleton())) },
            "word/document.xml"@,
        );
        lemma_lookup_push_other(
            with_comments,
            EntryV { name: "word/_rels/document.xml.rels"@, data: encode_utf8(patch_rels(rels_skeleton())) },
            "word/styles.xml"@,
        );
    }
    assert(crate::docx_parser::entry_lookup(out, "word/document.xml"@)
        == crate::docx_parser::entry_lookup(es, "word/document.xml"@));
    assert(crate::docx_parser::entry_lookup(out, "word/styles.xml"@)
        == crate::docx_parser::entry_lookup(es, "word/styles.xml"@));
    assert(crate::docx_parser::catalog_of_entries(out) == crate::docx_parser::catalog_of_entries(
        es,
    ));
}

/// Ensuring the comments relationship twice is the same as ensuring it
/// once: the patch is idempotent, so repeated calls add no duplicate entry.
pub proof fn lemma_rels_patch_idempotent(content: Seq<char>)
    ensures
        patch_rels(patch_rels(content)) == patch_rels(content),
{
    if !contains_sub(content, "comments.xml"@) {
        match rfind_sub(content, "</Relationships>"@) {
            None => {},
            Some(p) => {
                crate::textutil::lemma_rfind_sub_bounds(
                    content,
                    "</Relationships>"@,
                    content.len() - "</Relationships>"@.len(),
                );
                let patched = patch_rels(content);
                reveal_strlit(
                    "\n    <Relationship Id=\"rIdComments\" Type=\"http://schemas.openxmlformats.org/officeDocument/2006/relationships/comments\" Target=\"comments.xml\"/>",
                );
                reveal_strlit("comments.xml");
                assert(matches_at(comments_rel(), "comments.xml"@, 128)) by {
                    assert(comments_rel().subrange(128, 140) =~= "comments.xml"@);
                }
                crate::textutil::lemma_matches_concat_mid(
                    content.take(p),
                    comments_rel(),
                    content.skip(p),
                    "comments.xml"@,
                    128,
                );
                assert(matches_at(patched, "comments.xml"@, content.take(p).len() + 128int));
                crate::textutil::lemma_matches_to_contains(
                    patched,
                    "comments.xml"@,
                    content.take(p).len() + 128int,
                );
            },
        }
    }
}

} // verus!

verus! {

// ---------------------------------------------------------------------------
// Executable patching.
// ---------------------------------------------------------------------------

/// `v` with `ins` inserted at position `at`.
fn splice(v: &Vec<char>, at: usize, ins: &Vec<char>) -> (r: Vec<char>)
    requires
        at <= v@.len(),
    ensures
        r@ == v@.take(at as int) + ins@ + v@.skip(at as int),
{
    let mut out: Vec<char> = Vec::new();
    let mut i: usize = 0;
    while i < at
        invariant
            0 <= i <= at <= v@.len(),
            out@ == v@.take(at as int).take(i as int),
        decreases at - i,
    {
        out.push(v[i]);
        proof {
            assert(out@ =~= v@.take(at as int).take(i + 1));
        }
        i += 1;
    }
    proof {
        assert(v@.take(at as int).take(at as int) =~= v@.take(at as int));
    }
    let mut mid = ins.clone();
    out.append(&mut mid);
    let mut j: usize = at;
    while j < v.len()
        invariant
            at <= j <= v@.len(),
            out@ == v@.take(at as int) + ins@ + v@.skip(at as int).take(j - at),
        decreases v@.len() - j,
    {
        out.push(v[j]);
        proof {
            assert(v@.skip(at as int)[j - at] == v@[j as int]);
            assert(out@ =~= v@.take(at as int) + ins@ + v@.skip(at as int).take(j + 1 - at));
        }
        j += 1;
    }
    proof {
        assert(v@.skip(at as int).take(v@.len() - at) =~= v@.skip(at as int));
    }
    out
}

/// One marker's characters.
fn marker_chars(id: i64) -> (r: Vec<char>)
    requires
        0 <= id,
    ensures
        r@ == marker_xml(id as int),
{
    let mut out = str_chars("<w:commentReference w:id=\"");
    let mut digits = u64_digits(id as u64);
    out.append(&mut digits);
    let mut tail = str_chars("\"/>");
    out.append(&mut tail);
    out
}

proof fn lemma_markers_push(ids: Seq<int>, x: int)
    ensures
        markers_join(ids.push(x)) == if ids.len() == 0 {
            marker_xml(x)
        } else {
            markers_join(ids) + " "@ + marker_xml(x)
        },
    decreases ids.len(),
{
    if ids.len() == 0 {
        assert(ids.push(x).len() == 1);
        assert(ids.push(x)[0] == x);
    } else if ids.len() == 1 {
        assert(ids.push(x)[0] == ids[0]);
        assert(ids.push(x).drop_first() =~= seq![x]);
        assert(markers_join(seq![x]) == marker_xml(x));
    } else {
        assert(ids.push(x)[0] == ids[0]);
        assert(ids.push(x).drop_first() =~= ids.drop_first().push(x));
        lemma_markers_push(ids.drop_first(), x);
        assert(markers_join(ids) + " "@ + marker_xml(x) =~= marker_xml(ids[0]) + " "@ + (
        markers_join(ids.drop_first()) + " "@ + marker_xml(x)));
    }
}

/// The batch's markers, space separated, with the leading space the insert
/// carries.
fn insert_chars(start: i64, n: usize) -> (r: Vec<char>)
    requires
        1 <= start,
        start + n <= 0x7fff_ffff,
    ensures
        r@ == " "@ + markers_join(id_seq(start as int, n as int)),
{
    let mut out: Vec<char> = Vec::new();
    out.push(' ');
    proof {
        reveal_strlit(" ");
        assert(id_seq(start as int, 0) =~= Seq::<int>::empty());
        assert(out@ =~= " "@ + markers_join(id_seq(start as int, 0)));
    }
    let mut k: usize = 0;
    while k < n
        invariant
            0 <= k <= n,
            1 <= start,
            start + n <= 0x7fff_ffff,
            out@ == " "@ + markers_join(id_seq(start as int, k as int)),
        decreases n - k,
    {
        if k > 0 {
            out.push(' ');
        }
        let mut m = marker_chars(start + k as i64);
        out.append(&mut m);
        proof {
            lemma_markers_push(id_seq(start as int, k as int), start as int + k as int);
            assert(id_seq(start as int, k as int).push(start as int + k as int) =~= id_seq(
                start as int,
                k + 1,
            ));
            reveal_strlit(" ");
            assert(out@ =~= " "@ + markers_join(id_seq(start as int, k + 1)));
        }
        k += 1;
    }
    out
}

/// The content part with the marker batch inserted before the body's
/// closing tag.
fn patch_document_exec(txt: &Vec<char>, start: i64, n: usize) -> (r: Vec<char>)
    requires
        1 <= start,
        start + n <= 0x7fff_ffff,
    ensures
        r@ == patch_document(txt@, start as int, n as int),
{
    if n == 0 {
        return txt.clone();
    }
    let needle = str_chars("</w:body>");
    match rfind(txt, &needle) {
        None => txt.clone(),
        Some(p) => {
            let ins = insert_chars(start, n);
            splice(txt, p, &ins)
        },
    }
}

/// One comment entry's characters.
fn comment_chars(id: i64, author: &str, ts: &str, msg: &str) -> (r: Vec<char>)
    requires
        0 <= id,
    ensures
        r@ == comment_xml(id as int, author@, ts@, msg@),
{
    let escaped = escape_message(msg);
    let mut out = str_chars("\n    <w:comment w:id=\"");
    let mut digits = u64_digits(id as u64);
    out.append(&mut digits);
    let mut p1 = str_chars("\" w:author=\"");
    out.append(&mut p1);
    let mut a = str_chars(author);
    out.append(&mut a);
    let mut p2 = str_chars("\" w:date=\"");
    out.append(&mut p2);
    let mut t = str_chars(ts);
    out.append(&mut t);
    let mut p3 = str_chars(
        "\">\n        <w:p>\n            <w:pPr>\n                <w:pStyle w:val=\"CommentText\"/>\n            </w:pPr>\n            <w:r>\n                <w:rPr>\n                    <w:rStyle w:val=\"CommentReference\"/>\n                </w:rPr>\n                <w:t>",
    );
    out.append(&mut p3);
    let mut e = str_chars(escaped.as_str());
    out.append(&mut e);
    let mut p4 = str_chars("</w:t>\n            </w:r>\n        </w:p>\n    </w:comment>");
    out.append(&mut p4);
    out
}

/// The comments part with the batch appended before its closing tag.
fn patch_comments_exec(
    txt: &Vec<char>,
    issues: &Vec<Issue>,
    start: i64,
    author: &str,
    ts: &str,
) -> (r: Vec<char>)
    requires
        1 <= start,
        start + issues@.len() <= 0x7fff_ffff,
    ensures
        r@ == patch_comments(txt@, issues_view(issues@), start as int, author@, ts@),
{
    if issues.len() == 0 {
        return txt.clone();
    }
    let needle = str_chars("</w:comments>");
    match rfind(txt, &needle) {
        None => txt.clone(),
        Some(p) => {
            let ghost iv = issues_view(issues@);
            let mut blocks: Vec<char> = Vec::new();
            proof {
                assert(iv.skip(0) == iv);
            }
            let mut k: usize = 0;
            while k < issues.len()
                invariant
                    0 <= k <= issues@.len(),
                    1 <= start,
                    start + issues@.len() <= 0x7fff_ffff,
                    iv == issues_view(issues@),
                    iv.len() == issues@.len(),
                    blocks@ + comments_blocks(iv.skip(k as int), start as int + k, author@, ts@)
                        == comments_blocks(iv, start as int, author@, ts@),
                decreases issues@.len() - k,
            {
                proof {
                    assert(iv.skip(k as int)[0] == iv[k as int]);
                    assert(iv.skip(k as int).drop_first() =~= iv.skip(k + 1));
                }
                let mut c = comment_chars(
                    start + k as i64,
                    author,
                    ts,
                    issues[k].message.as_str(),
                );
                blocks.append(&mut c);
                k += 1;
            }
            proof {
                assert(iv.skip(issues@.len() as int).len() == 0);
                assert(blocks@ =~= comments_blocks(iv, start as int, author@, ts@));
            }
            splice(txt, p, &blocks)
        },
    }
}

/// The relationships part with the comments relationship ensured.
fn patch_rels_exec(txt: &Vec<char>) -> (r: Vec<char>)
    ensures
        r@ == patch_rels(txt@),
{
    let probe = str_chars("comments.xml");
    if contains(txt, &probe) {
        return txt.clone();
    }
    let needle = str_chars("</Relationships>");
    match rfind(txt, &needle) {
        None => txt.clone(),
        Some(p) => {
            let ins = str_chars(
                "\n    <Relationship Id=\"rIdComments\" Type=\"http://schemas.openxmlformats.org/officeDocument/2006/relationships/comments\" Target=\"comments.xml\"/>",
            );
            splice(txt, p, &ins)
        },
    }
}

} // verus!

verus! {

/// Writes annotations back into a document archive.
pub trait Writer {
    /// Apply a batch of issues to the original archive bytes and produce
    /// the new archive bytes.
    fn write_annotations(&mut self, path: &str, original: &Vec<u8>, issues: &Vec<Issue>) -> Result<
        Vec<u8>,
        DocError,
    >;
}

/// The annotation writer, owning the process-wide comment-id counter: ids
/// are drawn from it strictly increasing and never reused.
pub struct DocxWriter {
    pub next_comment_id: i64,
}

impl DocxWriter {
    /// A writer whose counter starts at one.
    pub fn new() -> (r: DocxWriter)
        ensures
            r.next_comment_id == 1,
    {
        DocxWriter { next_comment_id: 1 }
    }

    /// Patch a batch of issues into an entry list: markers into the content
    /// part, entries under the same ids into the comments part (synthesized
    /// when absent), and the comments relationship ensured. Deterministic in
    /// all of its inputs; fails exactly when one of the three patched parts
    /// is not readable text.
    pub fn annotate_parts(
        entries: &Vec<ArchiveEntry>,
        issues: &Vec<Issue>,
        start_id: i64,
        author: &str,
        timestamp: &str,
    ) -> (r: Result<Vec<ArchiveEntry>, ErrorKind>)
        requires
            1 <= start_id,
            start_id + issues@.len() <= 0x7fff_ffff,
        ensures
            r matches Ok(out) ==> annotate_error(entries_view(entries@)) is None && entries_view(
                out@,
            ) == annotate_entries_spec(
                entries_view(entries@),
                issues_view(issues@),
                start_id as int,
                author@,
                timestamp@,
            ),
            r matches Err(k) ==> annotate_error(entries_view(entries@)) == Some(k),
    {
        let ghost evs = entries_view(entries@);
        let ghost iv = issues_view(issues@);
        let has_comments = crate::docx_parser::find_entry(entries, "word/comments.xml").is_some();
        let has_rels = crate::docx_parser::find_entry(
            entries,
            "word/_rels/document.xml.rels",
        ).is_some();
        let mut out: Vec<ArchiveEntry> = Vec::new();
        proof {
            assert(evs.skip(0) == evs);
            assert(entries_view(out@) + transform_entries(
                evs.skip(0),
                iv,
                start_id as int,
                author@,
                timestamp@,
            ) =~= transform_entries(evs, iv, start_id as int, author@, timestamp@));
        }
        let mut i: usize = 0;
        while i < entries.len()
            invariant
                0 <= i <= entries@.len(),
                1 <= start_id,
                start_id + issues@.len() <= 0x7fff_ffff,
                evs == entries_view(entries@),
                iv == issues_view(issues@),
                evs.len() == entries@.len(),
                annotate_error(evs) == annotate_error(evs.skip(i as int)),
                entries_view(out@) + transform_entries(
                    evs.skip(i as int),
                    iv,
                    start_id as int,
                    author@,
                    timestamp@,
                ) == transform_entries(evs, iv, start_id as int, author@, timestamp@),
            decreases entries@.len() - i,
        {
            proof {
                assert(evs.skip(i as int)[0] == evs[i as int]);
                assert(evs.skip(i as int).drop_first() =~= evs.skip(i + 1));
            }
            let e = &entries[i];
            let name_chars = str_chars(e.name.as_str());
            let is_dir = name_chars.len() > 0 && name_chars[name_chars.len() - 1] == '/';
            if is_dir {
                proof {
                    lemma_part_names_distinct();
                    assert(is_dir_name(evs[i as int].name));
                    assert(evs[i as int].name != "word/document.xml"@);
                    assert(evs[i as int].name != "word/comments.xml"@);
                    assert(evs[i as int].name != "word/_rels/document.xml.rels"@);
                    assert(annotate_error(evs.skip(i as int)) == annotate_error(evs.skip(i + 1)));
                    assert(transform_entry(evs[i as int], iv, start_id as int, author@, timestamp@)
                        =~= Seq::<EntryV>::empty());
                    assert(entries_view(out@) + transform_entries(
                        evs.skip(i + 1),
                        iv,
                        start_id as int,
                        author@,
                        timestamp@,
                    ) =~= transform_entries(evs, iv, start_id as int, author@, timestamp@));
                }
            } else {
                let is_doc = str_eq(e.name.as_str(), "word/document.xml");
                let is_comments = str_eq(e.name.as_str(), "word/comments.xml");
                let is_rels = str_eq(e.name.as_str(), "word/_rels/document.xml.rels");
                let ghost before = entries_view(out@);
                if is_doc && issues.len() > 0 {
                    let txt = match crate::docx_parser::utf8_to_string(&e.data) {
                        Some(t) => t,
                        None => {
                            return Err(ErrorKind::MalformedXml);
                        },
                    };
                    let chars = str_chars(txt.as_str());
                    let patched = patch_document_exec(&chars, start_id, issues.len());
                    let ps = chars_string(&patched);
                    let data = vstd::string::StrSliceExecFns::as_bytes_vec(ps.as_str());
                    out.push(ArchiveEntry { name: e.name.clone(), data });
                } else if is_comments && issues.len() > 0 {
                    let txt = match crate::docx_parser::utf8_to_string(&e.data) {
                        Some(t) => t,
                        None => {
                            return Err(ErrorKind::MalformedXml);
                        },
                    };
                    let chars = str_chars(txt.as_str());
                    let patched = patch_comments_exec(&chars, issues, start_id, author, timestamp);
                    let ps = chars_string(&patched);
                    let data = vstd::string::StrSliceExecFns::as_bytes_vec(ps.as_str());
                    out.push(ArchiveEntry { name: e.name.clone(), data });
                } else if is_rels {
                    let txt = match crate::docx_parser::utf8_to_string(&e.data) {
                        Some(t) => t,
                        None => {
                            return Err(ErrorKind::MalformedXml);
                        },
                    };
                    let chars = str_chars(txt.as_str());
                    let patched = patch_rels_exec(&chars);
                    let ps = chars_string(&patched);
                    let data = vstd::string::StrSliceExecFns::as_bytes_vec(ps.as_str());
                    out.push(ArchiveEntry { name: e.name.clone(), data });
                } else {
                    if (is_doc || is_comments) && issues.len() == 0 {
                        // a part is only rewritten when there is something to
                        // write into it, but it must still be readable text
                        match crate::docx_parser::utf8_to_string(&e.data) {
                            Some(_) => {},
                            None => {
                                return Err(ErrorKind::MalformedXml);
                            },
                        }
                    }
                    out.push(e.clone());
                }
                proof {
                    assert(annotate_error(evs.skip(i as int)) == annotate_error(evs.skip(i + 1)));
                    assert(entries_view(out@) =~= before.push(out@[out@.len() - 1]@));
                    assert(entries_view(out@) =~= before + transform_entry(
                        evs[i as int],
                        iv,
                        start_id as int,
                        author@,
                        timestamp@,
                    ));
                    assert(entries_view(out@) + transform_entries(
                        evs.skip(i + 1),
                        iv,
                        start_id as int,
                        author@,
                        timestamp@,
                    ) =~= transform_entries(evs, iv, start_id as int, author@, timestamp@));
                }
            }
            i += 1;
        }
        proof {
            assert(evs.skip(entries@.len() as int).len() == 0);
            assert(annotate_error(evs) is None);
            assert(entries_view(out@) =~= transform_entries(
                evs,
                iv,
                start_id as int,
                author@,
                timestamp@,
            ));
        }
        if !has_comments {
            let skel = str_chars(
                "<?xml version=\"1.0\" encoding=\"UTF-8\" standalone=\"yes\"?>\n<w:comments xmlns:w=\"http://schemas.openxmlformats.org/wordprocessingml/2006/main\">\n</w:comments>",
            );
            let patched = patch_comments_exec(&skel, issues, start_id, author, timestamp);
            let ps = chars_string(&patched);
            let data = vstd::string::StrSliceExecFns::as_bytes_vec(ps.as_str());
            let ghost before = entries_view(out@);
            out.push(ArchiveEntry { name: String::from_str("word/comments.xml"), data });
            proof {
                assert(entries_view(out@) =~= before.push(out@[out@.len() - 1]@));
            }
        }
        if !has_rels {
            let skel = str_chars(
                "<?xml version=\"1.0\" encoding=\"UTF-8\" standalone=\"yes\"?>\n<Relationships xmlns=\"http://schemas.openxmlformats.org/package/2006/relationships\">\n</Relationships>",
            );
            let patched = patch_rels_exec(&skel);
            let ps = chars_string(&patched);
            let data = vstd::string::StrSliceExecFns::as_bytes_vec(ps.as_str());
            let ghost before = entries_view(out@);
            out.push(
                ArchiveEntry { name: String::from_str("word/_rels/document.xml.rels"), data },
            );
            proof {
                assert(entries_view(out@) =~= before.push(out@[out@.len() - 1]@));
            }
        }
        proof {
            assert(entries_view(out@) =~= annotate_entries_spec(
                evs,
                iv,
                start_id as int,
                author@,
                timestamp@,
            ));
        }
        Ok(out)
    }

    /// Apply a batch of issues to original archive bytes: extract, patch the
    /// three parts, and repackage. On any failure after extraction begins,
    /// no partial result is handed out: the caller gets the error alone.
    /// The counter always advances by the batch size, so ids are never
    /// reused even across failed calls.
    pub fn annotate_archive(&mut self, path: &str, original: &Vec<u8>, issues: &Vec<Issue>) -> (r:
        Result<Vec<u8>, DocError>)
        requires
            1 <= old(self).next_comment_id,
            old(self).next_comment_id + issues@.len() <= 0x7fff_ffff,
        ensures
            final(self).next_comment_id == old(self).next_comment_id + issues@.len(),
            r matches Ok(out) ==> zip_entries(original@) matches Some(es) && annotate_error(es)
                is None && (exists|ts: Seq<char>|
                out@ == zip_encode(
                    #[trigger] annotate_entries_spec(
                        es,
                        issues_view(issues@),
                        old(self).next_comment_id as int,
                        "Auditor"@,
                        ts,
                    ),
                )),
            r matches Err(e) ==> e.path@ == path@ && (e.kind == ErrorKind::MalformedArchive
                <==> zip_entries(original@) is None) && (e.kind == ErrorKind::MalformedXml
                ==> (zip_entries(original@) matches Some(es2) && annotate_error(es2) == Some(
                ErrorKind::MalformedXml,
            ))),
    {
        let start_id = self.next_comment_id;
        let n = issues.len();
        self.next_comment_id = start_id + n as i64;
        let entries = match read_archive(original) {
            Ok(es) => es,
            Err(msg) => {
                return Err(DocError::new(ErrorKind::MalformedArchive, path, "archive", msg));
            },
        };
        let ts = now_timestamp();
        let patched = match Self::annotate_parts(&entries, issues, start_id, "Auditor", ts.as_str()) {
            Ok(out) => out,
            Err(kind) => {
                proof {
                    lemma_annotate_error_kind(entries_view(entries@));
                }
                return Err(
                    DocError::new(
                        kind,
                        path,
                        "word/document.xml",
                        String::from_str("a patched part is not readable text"),
                    ),
                );
            },
        };
        match write_archive(&patched) {
            Ok(bytes) => {
                proof {
                    let ghost es = zip_entries(original@)->0;
                    assert(bytes@ == zip_encode(
                        annotate_entries_spec(
                            es,
                            issues_view(issues@),
                            start_id as int,
                            "Auditor"@,
                            ts@,
                        ),
                    ));
                }
                Ok(bytes)
            },
            Err(msg) => Err(DocError::new(ErrorKind::IoFailure, path, "archive", msg)),
        }
    }
}

impl Writer for DocxWriter {
    fn write_annotations(&mut self, path: &str, original: &Vec<u8>, issues: &Vec<Issue>) -> Result<
        Vec<u8>,
        DocError,
    > {
        if self.next_comment_id < 1 || issues.len() > 0x7fff_fffe || self.next_comment_id
            > 0x7fff_ffff - issues.len() as i64 {
            return Err(
                DocError::new(
                    ErrorKind::IoFailure,
                    path,
                    "archive",
                    String::from_str("comment id space exhausted"),
                ),
            );
        }
        self.annotate_archive(path, original, issues)
    }
}

} // verus!

verus! {

proof fn lemma_join_has_marker(ids: Seq<int>, k: int)
    requires
        0 <= k < ids.len(),
    ensures
        exists|i: int| #[trigger] matches_at(markers_join(ids), marker_xml(ids[k]), i),
    decreases k,
{
    let join = markers_join(ids);
    let m = marker_xml(ids[k]);
    if k == 0 {
        if ids.len() == 1 {
            assert(join.subrange(0, m.len() as int) =~= m);
            assert(matches_at(join, m, 0));
        } else {
            assert(join == m + " "@ + markers_join(ids.drop_first()));
            assert(join.subrange(0, m.len() as int) =~= m);
            assert(matches_at(join, m, 0));
        }
    } else {
        lemma_join_has_marker(ids.drop_first(), k - 1);
        let rest = markers_join(ids.drop_first());
        let m0 = marker_xml(ids[0]);
        let i = choose|i: int| #[trigger] matches_at(rest, marker_xml(ids.drop_first()[k - 1]), i);
        assert(ids.drop_first()[k - 1] == ids[k]);
        crate::textutil::lemma_matches_concat_mid(m0 + " "@, rest, Seq::empty(), m, i);
        assert((m0 + " "@ + rest + Seq::<char>::empty()) =~= join);
        assert(matches_at(join, m, (m0 + " "@).len() + i));
    }
}

/// Every id of the batch appears as a marker in the patched content part,
/// whenever the part has a body to patch.
pub proof fn lemma_marker_appears(doc: Seq<char>, start: int, n: int, k: int)
    requires
        1 <= n,
        0 <= k < n,
        rfind_sub(doc, "</w:body>"@) is Some,
    ensures
        contains_sub(patch_document(doc, start, n), marker_xml(start + k)),
{
    let p = rfind_sub(doc, "</w:body>"@)->0;
    let ids = id_seq(start, n);
    let join = markers_join(ids);
    let patched = patch_document(doc, start, n);
    lemma_join_has_marker(ids, k);
    assert(ids[k] == start + k);
    let i = choose|i: int| #[trigger] matches_at(join, marker_xml(ids[k]), i);
    crate::textutil::lemma_matches_concat_mid(
        doc.take(p) + " "@,
        join,
        doc.skip(p),
        marker_xml(start + k),
        i,
    );
    assert((doc.take(p) + " "@ + join + doc.skip(p)) =~= patched);
    assert(matches_at(patched, marker_xml(start + k), (doc.take(p) + " "@).len() + i));
    crate::textutil::lemma_matches_to_contains(
        patched,
        marker_xml(start + k),
        (doc.take(p) + " "@).len() + i,
    );
}

proof fn lemma_blocks_have_entry(
    issues: Seq<IssueV>,
    start: int,
    author: Seq<char>,
    ts: Seq<char>,
    k: int,
)
    requires
        0 <= k < issues.len(),
    ensures
        exists|i: int|
            #[trigger] matches_at(
                comments_blocks(issues, start, author, ts),
                comment_xml(start + k, author, ts, issues[k].message),
                i,
            ),
    decreases k,
{
    let blocks = comments_blocks(issues, start, author, ts);
    let b0 = comment_xml(start, author, ts, issues[0].message);
    if k == 0 {
        assert(blocks == b0 + comments_blocks(issues.drop_first(), start + 1, author, ts));
        assert(blocks.subrange(0, b0.len() as int) =~= b0);
        assert(matches_at(blocks, b0, 0));
    } else {
        lemma_blocks_have_entry(issues.drop_first(), start + 1, author, ts, k - 1);
        let rest = comments_blocks(issues.drop_first(), start + 1, author, ts);
        let m = comment_xml(start + k, author, ts, issues[k].message);
        assert(issues.drop_first()[k - 1] == issues[k]);
        let i = choose|i: int|
            #[trigger] matches_at(
                rest,
                comment_xml(start + 1 + (k - 1), author, ts, issues.drop_first()[k - 1].message),
                i,
            );
        crate::textutil::lemma_matches_concat_mid(b0, rest, Seq::empty(), m, i);
        assert((b0 + rest + Seq::<char>::empty()) =~= blocks);
        assert(matches_at(blocks, m, b0.len() + i));
    }
}

/// Every id of the batch appears as a comment entry in the patched
/// comments part, whenever the part has a closing tag to patch; the ids
/// are the same sequence the markers carry.
pub proof fn lemma_comment_entry_appears(
    content: Seq<char>,
    issues: Seq<IssueV>,
    start: int,
    author: Seq<char>,
    ts: Seq<char>,
    k: int,
)
    requires
        0 <= k < issues.len(),
        rfind_sub(content, "</w:comments>"@) is Some,
    ensures
        contains_sub(
            patch_comments(content, issues, start, author, ts),
            comment_xml(start + k, author, ts, issues[k].message),
        ),
{
    let p = rfind_sub(content, "</w:comments>"@)->0;
    let blocks = comments_blocks(issues, start, author, ts);
    let patched = patch_comments(content, issues, start, author, ts);
    let m = comment_xml(start + k, author, ts, issues[k].message);
    lemma_blocks_have_entry(issues, start, author, ts, k);
    let i = choose|i: int| #[trigger] matches_at(blocks, m, i);
    crate::textutil::lemma_matches_concat_mid(content.take(p), blocks, content.skip(p), m, i);
    assert((content.take(p) + blocks + content.skip(p)) =~= patched);
    assert(matches_at(patched, m, content.take(p).len() + i));
    crate::textutil::lemma_matches_to_contains(patched, m, content.take(p).len() + i);
}

} // verus!
