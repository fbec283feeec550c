//! The connection log's serialization format: one YAML mapping per record,
//! written as a `---` header followed by `key: value` lines, each appended
//! entry closed by one blank separator line.

use vstd::prelude::*;

use crate::strutil::{
    break_at, find_char, join_sep, join_sep_spec, lemma_break_at_concat, lemma_join_sep_app,
    lemma_join_sep_elems, lemma_split_join, split_sep, split_sep_spec, str_eq,
};

verus! {

/// A field the emitter can write and the parser read back: a non-empty key
/// without `:` or line breaks, and a value without line breaks.
pub open spec fn wf_field(k: Seq<char>, v: Seq<char>) -> bool {
    k.len() > 0 && !k.contains(':') && !k.contains('\n') && !v.contains('\n')
}

/// All fields of a document are well formed.
pub open spec fn wf_doc(d: Seq<(Seq<char>, Seq<char>)>) -> bool {
    forall|i: int| 0 <= i < d.len() ==> wf_field((#[trigger] d[i]).0, d[i].1)
}

/// The document-start marker line.
pub open spec fn header_chars() -> Seq<char> {
    seq!['-', '-', '-']
}

/// One serialized field: `key: value`.
pub open spec fn field_line_spec(k: Seq<char>, v: Seq<char>) -> Seq<char> {
    k + seq![':', ' '] + v
}

/// The lines of one serialized document: the marker, then one line per
/// field, in field order.
pub open spec fn doc_lines_spec(d: Seq<(Seq<char>, Seq<char>)>) -> Seq<Seq<char>> {
    seq![header_chars()] + d.map_values(|f: (Seq<char>, Seq<char>)| field_line_spec(f.0, f.1))
}

/// The text of one serialized document, each line newline-terminated.
pub open spec fn emit_document_spec(d: Seq<(Seq<char>, Seq<char>)>) -> Seq<char> {
    join_sep_spec(doc_lines_spec(d), '\n')
}

/// One log entry: the document followed by exactly one blank line.
pub open spec fn log_entry_spec(d: Seq<(Seq<char>, Seq<char>)>) -> Seq<char> {
    emit_document_spec(d) + seq!['\n']
}

/// The log after appending the given documents in order to an empty log.
pub open spec fn log_spec(docs: Seq<Seq<(Seq<char>, Seq<char>)>>) -> Seq<char>
    decreases docs.len(),
{
    if docs.len() == 0 {
        Seq::empty()
    } else {
        log_entry_spec(docs[0]) + log_spec(docs.skip(1))
    }
}

/// Serializes a document to its YAML-mapping text.
pub fn emit_document(doc: &Vec<(String, String)>) -> (r: String)
    ensures
        r@ == emit_document_spec(doc.deep_view()),
{
    let ghost dv = doc.deep_view();
    let mut lines: Vec<String> = Vec::new();
    lines.push(String::from_str("---"));
    proof {
        reveal_strlit("---");
        assert("---"@ =~= header_chars());
        assert(lines.deep_view() =~~= doc_lines_spec(dv.take(0)));
    }
    let mut i: usize = 0;
    while i < doc.len()
        invariant
            0 <= i <= doc.len(),
            dv == doc.deep_view(),
            dv.len() == doc.len(),
            lines.deep_view() == doc_lines_spec(dv.take(i as int)),
        decreases doc.len() - i,
    {
        let mut line = doc[i].0.clone();
        line.append(": ");
        line.append(doc[i].1.as_str());
        proof {
            reveal_strlit(": ");
            assert(": "@ =~= seq![':', ' ']);
            assert(doc.deep_view()[i as int] == doc@[i as int].deep_view());
            assert(line@ =~= field_line_spec(dv[i as int].0, dv[i as int].1));
        }
        let ghost prev = lines.deep_view();
        lines.push(line);
        proof {
            let nd = doc_lines_spec(dv.take(i as int + 1));
            assert(prev.len() == i + 1);
            assert(nd.len() == i + 2);
            assert forall|j: int| 0 <= j < lines.deep_view().len() implies #[trigger] lines
                .deep_view()[j] == nd[j] by {
                if j < prev.len() {
                    assert(lines.deep_view()[j] == prev[j]);
                    assert(prev[j] == doc_lines_spec(dv.take(i as int))[j]);
                    if j > 0 {
                        assert(doc_lines_spec(dv.take(i as int))[j] == field_line_spec(
                            dv[j - 1].0,
                            dv[j - 1].1,
                        ));
                        assert(nd[j] == field_line_spec(dv[j - 1].0, dv[j - 1].1));
                    }
                } else {
                    assert(lines.deep_view()[j] == line@);
                    assert(nd[j] == field_line_spec(dv[i as int].0, dv[i as int].1));
                }
            }
            assert(lines.deep_view() =~= nd);
        }
        i += 1;
    }
    proof {
        assert(dv.take(dv.len() as int) =~= dv);
        reveal_strlit("\n");
        assert("\n"@ =~= seq!['\n']);
    }
    join_sep(&lines, '\n', "\n")
}

/// Serializes a document as one log entry, closed by a blank line.
pub fn log_entry(doc: &Vec<(String, String)>) -> (r: String)
    ensures
        r@ == log_entry_spec(doc.deep_view()),
{
    let mut r = emit_document(doc);
    r.append("\n");
    proof {
        reveal_strlit("\n");
        assert("\n"@ =~= seq!['\n']);
    }
    r
}

/// Appends one entry to the log text.  The prior contents are kept
/// byte for byte; the log only grows.
pub fn append_connection(log: &mut String, doc: &Vec<(String, String)>)
    ensures
        final (log)@ == old(log)@ + log_entry_spec(doc.deep_view()),
{
    let entry = log_entry(doc);
    log.append(entry.as_str());
}

/// Reads one `key: value` line back, splitting at the first `:`.
pub open spec fn parse_field_spec(line: Seq<char>) -> Option<(Seq<char>, Seq<char>)> {
    let b = break_at(line, ':');
    if 0 < b && b + 2 <= line.len() && line[b + 1] == ' ' {
        Some((line.subrange(0, b), line.subrange(b + 2, line.len() as int)))
    } else {
        None
    }
}

/// Reads one document back from its lines: the marker, then fields.
pub open spec fn parse_block_spec(block: Seq<Seq<char>>) -> Option<Seq<(Seq<char>, Seq<char>)>> {
    if block.len() >= 1 && block[0] == header_chars() && (forall|i: int|
        1 <= i < block.len() ==> parse_field_spec(#[trigger] block[i]) is Some) {
        Some(Seq::new((block.len() - 1) as nat, |i: int| parse_field_spec(block[i + 1]).unwrap()))
    } else {
        None
    }
}

/// Reads a list of blocks back; one malformed block fails the whole read.
pub open spec fn parse_blocks_spec(blocks: Seq<Seq<Seq<char>>>) -> Option<
    Seq<Seq<(Seq<char>, Seq<char>)>>,
>
    decreases blocks.len(),
{
    if blocks.len() == 0 {
        Some(Seq::empty())
    } else {
        match parse_block_spec(blocks[0]) {
            None => None,
            Some(d) => match parse_blocks_spec(blocks.skip(1)) {
                None => None,
                Some(ds) => Some(seq![d] + ds),
            },
        }
    }
}

/// Reads a whole log back: lines, then blank-line-separated blocks.
pub open spec fn parse_log_spec(t: Seq<char>) -> Option<Seq<Seq<(Seq<char>, Seq<char>)>>> {
    parse_blocks_spec(split_sep_spec(split_sep_spec(t, '\n'), Seq::<char>::empty()))
}

/// Reading a well-formed field's line yields the field back.
pub proof fn lemma_parse_field_round(k: Seq<char>, v: Seq<char>)
    requires
        wf_field(k, v),
    ensures
        parse_field_spec(field_line_spec(k, v)) == Some((k, v)),
{
    let line = field_line_spec(k, v);
    assert(line =~= k + seq![':'] + (seq![' '] + v));
    lemma_break_at_concat(k, ':', seq![' '] + v);
    let b = break_at(line, ':');
    assert(b == k.len());
    assert(line[b + 1] == ' ');
    assert(line.subrange(0, b) =~= k);
    assert(line.subrange(b + 2, line.len() as int) =~= v);
}

/// The lines of a well-formed document are non-empty and hold no newline.
pub proof fn lemma_doc_lines_wf(d: Seq<(Seq<char>, Seq<char>)>)
    requires
        wf_doc(d),
    ensures
        forall|i: int|
            0 <= i < doc_lines_spec(d).len() ==> (#[trigger] doc_lines_spec(d)[i]).len() > 0,
        forall|i: int|
            0 <= i < doc_lines_spec(d).len() ==> !(#[trigger] doc_lines_spec(d)[i]).contains('\n'),
{
    let ls = doc_lines_spec(d);
    assert forall|i: int| 0 <= i < ls.len() implies ls[i].len() > 0 && !ls[i].contains('\n') by {
        if i == 0 {
            assert(ls[0] == header_chars());
            assert forall|j: int| 0 <= j < header_chars().len() implies header_chars()[j]
                != '\n' by {}
            if header_chars().contains('\n') {
                let j = choose|j: int|
                    0 <= j < header_chars().len() && header_chars()[j] == '\n';
            }
        } else {
            let f = d[i - 1];
            assert(ls[i] == field_line_spec(f.0, f.1));
            assert(wf_field(f.0, f.1));
            let line = field_line_spec(f.0, f.1);
            assert(line.len() == f.0.len() + 2 + f.1.len());
            if line.contains('\n') {
                let j = choose|j: int| 0 <= j < line.len() && line[j] == '\n';
                if j < f.0.len() {
                    assert(f.0[j] == '\n');
                    assert(f.0.contains('\n'));
                } else if j < f.0.len() + 2 {
                    assert(line[j] == ':' || line[j] == ' ');
                } else {
                    assert(f.1[j - f.0.len() - 2] == '\n');
                    assert(f.1.contains('\n'));
                }
            }
        }
    }
}

/// Reading a well-formed document's lines yields the document back.
pub proof fn lemma_parse_block_round(d: Seq<(Seq<char>, Seq<char>)>)
    requires
        wf_doc(d),
    ensures
        parse_block_spec(doc_lines_spec(d)) == Some(d),
{
    let block = doc_lines_spec(d);
    assert(block[0] == header_chars());
    assert forall|i: int| 1 <= i < block.len() implies parse_field_spec(
        #[trigger] block[i],
    ) is Some by {
        let f = d[i - 1];
        assert(block[i] == field_line_spec(f.0, f.1));
        assert(wf_field(f.0, f.1));
        lemma_parse_field_round(f.0, f.1);
    }
    let parsed = parse_block_spec(block).unwrap();
    assert forall|i: int| 0 <= i < d.len() implies parsed[i] == d[i] by {
        let f = d[i];
        assert(block[i + 1] == field_line_spec(f.0, f.1));
        lemma_parse_field_round(f.0, f.1);
        assert(parse_field_spec(block[i + 1]) == Some((f.0, f.1)));
    }
    assert(parsed =~= d);
}

/// Reads one `key: value` line.
pub fn parse_field(line: &str) -> (r: Option<(String, String)>)
    ensures
        match parse_field_spec(line@) {
            Some(p) => r matches Some(q) && q.0@ == p.0 && q.1@ == p.1,
            None => r is None,
        },
{
    let len = line.unicode_len();
    let b = find_char(line, ':');
    if 0 < b && len >= 2 && b <= len - 2 && line.get_char(b + 1) == ' ' {
        let k = line.substring_char(0, b).to_owned();
        let v = line.substring_char(b + 2, len).to_owned();
        Some((k, v))
    } else {
        None
    }
}

/// Copies the given range of lines.
fn clone_lines(lines: &Vec<String>, from: usize, to: usize) -> (r: Vec<String>)
    requires
        from <= to <= lines@.len(),
    ensures
        r.deep_view() == lines.deep_view().subrange(from as int, to as int),
{
    let mut r: Vec<String> = Vec::new();
    let mut i: usize = from;
    proof {
        assert(r.deep_view() =~~= lines.deep_view().subrange(from as int, from as int));
    }
    while i < to
        invariant
            from <= i <= to <= lines@.len(),
            r.deep_view() == lines.deep_view().subrange(from as int, i as int),
        decreases to - i,
    {
        let ghost prev = r.deep_view();
        r.push(lines[i].clone());
        proof {
            let target = lines.deep_view().subrange(from as int, i as int + 1);
            assert forall|j: int| 0 <= j < r.deep_view().len() implies #[trigger] r.deep_view()[j]
                == target[j] by {
                if j < prev.len() {
                    assert(r.deep_view()[j] == prev[j]);
                } else {
                    assert(r.deep_view()[j] == lines@[i as int]@);
                    assert(lines.deep_view()[i as int] == lines@[i as int]@);
                    assert(target[j] == lines.deep_view()[i as int]);
                }
            }
            assert(prev.len() == i - from);
            assert(r@.len() == prev.len() + 1);
            assert(target.len() == i + 1 - from);
            assert(r.deep_view().len() == r@.len());
            assert(r.deep_view().len() == target.len());
            assert(forall|j: int| 0 <= j < r.deep_view().len() ==> r.deep_view()[j] == target[j]);
            assert(r.deep_view() =~~= target);
        }
        i += 1;
    }
    proof {
        assert(r.deep_view() =~~= lines.deep_view().subrange(from as int, to as int));
    }
    r
}

/// Groups lines into blocks separated by blank lines.
fn split_blocks(lines: &Vec<String>) -> (r: Vec<Vec<String>>)
    ensures
        r.deep_view() == split_sep_spec(lines.deep_view(), Seq::<char>::empty()),
    decreases lines@.len(),
{
    let ghost blank = Seq::<char>::empty();
    let ghost lv = lines.deep_view();
    let n = lines.len();
    if n == 0 {
        let r: Vec<Vec<String>> = Vec::new();
        proof {
            assert(r.deep_view() =~~= split_sep_spec(lv, blank));
        }
        return r;
    }
    let mut b: usize = 0;
    while b < n && lines[b].unicode_len() != 0
        invariant
            0 <= b <= n,
            n == lv.len(),
            lv == lines.deep_view(),
            forall|j: int| 0 <= j < b ==> (#[trigger] lv[j]).len() != 0,
        decreases n - b,
    {
        b += 1;
    }
    proof {
        assert forall|j: int| 0 <= j < b implies lv[j] != blank by {
            assert(lv[j].len() != 0);
        }
        if b < n {
            assert(lv[b as int] =~= blank);
        }
        crate::strutil::lemma_break_at_char(lv, blank, b as int);
    }
    if b == n {
        let mut r: Vec<Vec<String>> = Vec::new();
        r.push(clone_lines(lines, 0, n));
        proof {
            assert(lv.subrange(0, n as int) =~= lv);
            assert(r.deep_view() =~~= split_sep_spec(lv, blank));
        }
        return r;
    }
    let first = clone_lines(lines, 0, b);
    let rest = clone_lines(lines, b + 1, n);
    proof {
        assert(rest.deep_view() =~= lv.skip(b as int + 1));
    }
    let mut r = split_blocks(&rest);
    r.insert(0, first);
    proof {
        assert(r.deep_view() =~~= split_sep_spec(lv, blank));
    }
    r
}

/// Reads one document from its block of lines.
pub fn parse_block(block: &Vec<String>) -> (r: Option<Vec<(String, String)>>)
    ensures
        match parse_block_spec(block.deep_view()) {
            Some(d) => r matches Some(rd) && rd.deep_view() == d,
            None => r is None,
        },
{
    let ghost bv = block.deep_view();
    if block.len() == 0 {
        return None;
    }
    if !str_eq(block[0].as_str(), "---") {
        proof {
            reveal_strlit("---");
            assert("---"@ =~= header_chars());
        }
        return None;
    }
    proof {
        reveal_strlit("---");
        assert("---"@ =~= header_chars());
    }
    let mut out: Vec<(String, String)> = Vec::new();
    let mut i: usize = 1;
    while i < block.len()
        invariant
            1 <= i <= block.len(),
            bv == block.deep_view(),
            bv.len() == block.len(),
            bv[0] == header_chars(),
            forall|j: int| 1 <= j < i ==> parse_field_spec(#[trigger] bv[j]) is Some,
            out.deep_view().len() == i - 1,
            forall|j: int|
                0 <= j < i - 1 ==> #[trigger] out.deep_view()[j] == parse_field_spec(
                    bv[j + 1],
                ).unwrap(),
        decreases block.len() - i,
    {
        let ghost prev = out.deep_view();
        match parse_field(block[i].as_str()) {
            Some(f) => {
                proof {
                    assert(block.deep_view()[i as int] == block@[i as int]@);
                }
                out.push(f);
                proof {
                    assert forall|j: int| 0 <= j < out.deep_view().len() implies #[trigger] out
                        .deep_view()[j] == parse_field_spec(bv[j + 1]).unwrap() by {
                        if j < prev.len() {
                            assert(out.deep_view()[j] == prev[j]);
                        } else {
                            assert(out.deep_view()[j] == (f.0@, f.1@));
                        }
                    }
                }
            },
            None => {
                proof {
                    assert(block.deep_view()[i as int] == block@[i as int]@);
                    assert(parse_field_spec(bv[i as int]) is None);
                }
                return None;
            },
        }
        i += 1;
    }
    proof {
        let d = parse_block_spec(bv).unwrap();
        assert(out.deep_view() =~~= d);
    }
    Some(out)
}

/// Reads a whole connection log back into its documents.  `None` means
/// some entry does not have the emitter's shape.
pub fn parse_log(text: &str) -> (r: Option<Vec<Vec<(String, String)>>>)
    ensures
        match parse_log_spec(text@) {
            Some(ds) => r matches Some(rv) && rv.deep_view() == ds,
            None => r is None,
        },
{
    let lines = split_sep(text, '\n');
    let blocks = split_blocks(&lines);
    let ghost bsv = blocks.deep_view();
    let mut out: Vec<Vec<(String, String)>> = Vec::new();
    let mut i: usize = 0;
    while i < blocks.len()
        invariant
            0 <= i <= blocks.len(),
            bsv == blocks.deep_view(),
            bsv.len() == blocks.len(),
            bsv == split_sep_spec(split_sep_spec(text@, '\n'), Seq::<char>::empty()),
            forall|j: int| 0 <= j < i ==> parse_block_spec(#[trigger] bsv[j]) is Some,
            out.deep_view().len() == i,
            forall|j: int|
                0 <= j < i ==> #[trigger] out.deep_view()[j] == parse_block_spec(bsv[j]).unwrap(),
        decreases blocks.len() - i,
    {
        let ghost prev = out.deep_view();
        match parse_block(&blocks[i]) {
            Some(d) => {
                proof {
                    assert(blocks.deep_view()[i as int] == blocks@[i as int].deep_view());
                }
                out.push(d);
                proof {
                    assert forall|j: int| 0 <= j < out.deep_view().len() implies #[trigger] out
                        .deep_view()[j] == parse_block_spec(bsv[j]).unwrap() by {
                        if j < prev.len() {
                            assert(out.deep_view()[j] == prev[j]);
                        }
                    }
                }
            },
            None => {
                proof {
                    lemma_parse_blocks_none(bsv, i as int);
                }
                return None;
            },
        }
        i += 1;
    }
    proof {
        lemma_parse_blocks_all(bsv);
        let ds = parse_blocks_spec(bsv).unwrap();
        assert(out.deep_view() =~~= ds);
    }
    Some(out)
}

/// If one block is malformed, the whole block list fails to read.
proof fn lemma_parse_blocks_none(blocks: Seq<Seq<Seq<char>>>, i: int)
    requires
        0 <= i < blocks.len(),
        parse_block_spec(blocks[i]) is None,
    ensures
        parse_blocks_spec(blocks) is None,
    decreases blocks.len(),
{
    if i > 0 {
        assert(blocks.skip(1)[i - 1] == blocks[i]);
        lemma_parse_blocks_none(blocks.skip(1), i - 1);
    }
}

/// If every block reads, the block list reads to exactly those documents.
proof fn lemma_parse_blocks_all(blocks: Seq<Seq<Seq<char>>>)
    requires
        forall|j: int| 0 <= j < blocks.len() ==> parse_block_spec(#[trigger] blocks[j]) is Some,
    ensures
        parse_blocks_spec(blocks) matches Some(ds) && ds.len() == blocks.len() && forall|j: int|
            0 <= j < blocks.len() ==> ds[j] == parse_block_spec(#[trigger] blocks[j]).unwrap(),
    decreases blocks.len(),
{
    if blocks.len() > 0 {
        assert(forall|j: int|
            0 <= j < blocks.skip(1).len() ==> blocks.skip(1)[j] == blocks[j + 1]);
        lemma_parse_blocks_all(blocks.skip(1));
        let tail = parse_blocks_spec(blocks.skip(1)).unwrap();
        let ds = parse_blocks_spec(blocks).unwrap();
        assert(ds == seq![parse_block_spec(blocks[0]).unwrap()] + tail);
        assert forall|j: int| 0 <= j < blocks.len() implies ds[j] == parse_block_spec(
            #[trigger] blocks[j],
        ).unwrap() by {
            if j > 0 {
                assert(ds[j] == tail[j - 1]);
                assert(tail[j - 1] == parse_block_spec(blocks.skip(1)[j - 1]).unwrap());
            }
        }
    }
}

/// The line blocks of a list of serialized documents.
pub open spec fn blocks_of(docs: Seq<Seq<(Seq<char>, Seq<char>)>>) -> Seq<Seq<Seq<char>>> {
    docs.map_values(|d: Seq<(Seq<char>, Seq<char>)>| doc_lines_spec(d))
}

/// The log text is the lines of all documents, blank-separated, joined by
/// newlines.
pub proof fn lemma_log_as_lines(docs: Seq<Seq<(Seq<char>, Seq<char>)>>)
    ensures
        log_spec(docs) == join_sep_spec(
            join_sep_spec(blocks_of(docs), Seq::<char>::empty()),
            '\n',
        ),
    decreases docs.len(),
{
    let blank = Seq::<char>::empty();
    if docs.len() == 0 {
        assert(blocks_of(docs) =~= Seq::<Seq<Seq<char>>>::empty());
        assert(log_spec(docs) =~= join_sep_spec(
            join_sep_spec(blocks_of(docs), blank),
            '\n',
        ));
    } else {
        let b0 = doc_lines_spec(docs[0]);
        let blocks = blocks_of(docs);
        let rest_blocks = blocks_of(docs.skip(1));
        assert(blocks.skip(1) =~= rest_blocks);
        assert(blocks[0] == b0);
        let rest_lines = join_sep_spec(rest_blocks, blank);
        assert(join_sep_spec(blocks, blank) =~= (b0 + seq![blank]) + rest_lines);
        lemma_join_sep_app(b0 + seq![blank], rest_lines, '\n');
        lemma_join_sep_app(b0, seq![blank], '\n');
        let one = seq![blank];
        assert(one.len() == 1 && one[0] == blank);
        assert(one.skip(1) =~= Seq::<Seq<char>>::empty());
        assert(join_sep_spec(one.skip(1), '\n') =~= Seq::<char>::empty());
        assert(join_sep_spec(one, '\n') =~= blank + seq!['\n'] + join_sep_spec(
            one.skip(1),
            '\n',
        ));
        assert(join_sep_spec(one, '\n') =~= seq!['\n']);
        lemma_log_as_lines(docs.skip(1));
        assert(log_spec(docs) =~= join_sep_spec(join_sep_spec(blocks, blank), '\n'));
    }
}

/// Reading back the blocks of well-formed documents yields the documents.
pub proof fn lemma_parse_blocks_round(docs: Seq<Seq<(Seq<char>, Seq<char>)>>)
    requires
        forall|i: int| 0 <= i < docs.len() ==> wf_doc(#[trigger] docs[i]),
    ensures
        parse_blocks_spec(blocks_of(docs)) == Some(docs),
    decreases docs.len(),
{
    if docs.len() == 0 {
        assert(blocks_of(docs) =~= Seq::<Seq<Seq<char>>>::empty());
        assert(parse_blocks_spec(blocks_of(docs)) == Some(Seq::<
            Seq<(Seq<char>, Seq<char>)>,
        >::empty()));
        assert(Seq::<Seq<(Seq<char>, Seq<char>)>>::empty() =~= docs);
    } else {
        let blocks = blocks_of(docs);
        lemma_parse_block_round(docs[0]);
        assert(blocks[0] == doc_lines_spec(docs[0]));
        assert(blocks.skip(1) =~= blocks_of(docs.skip(1)));
        lemma_parse_blocks_round(docs.skip(1));
        assert(seq![docs[0]] + docs.skip(1) =~= docs);
    }
}

/// Appending well-formed documents to an empty log and reading the log
/// back yields exactly those documents, in append order.
pub proof fn lemma_log_round_trip(docs: Seq<Seq<(Seq<char>, Seq<char>)>>)
    requires
        forall|i: int| 0 <= i < docs.len() ==> wf_doc(#[trigger] docs[i]),
    ensures
        parse_log_spec(log_spec(docs)) == Some(docs),
{
    let blank = Seq::<char>::empty();
    let blocks = blocks_of(docs);
    let all_lines = join_sep_spec(blocks, blank);
    lemma_log_as_lines(docs);
    assert forall|i: int, j: int|
        0 <= i < blocks.len() && 0 <= j < blocks[i].len() implies !(#[trigger] blocks[i][j])
        .contains('\n') && blocks[i][j].len() > 0 by {
        lemma_doc_lines_wf(docs[i]);
        assert(blocks[i] == doc_lines_spec(docs[i]));
    }
    lemma_join_sep_elems(blocks, blank, |l: Seq<char>| !l.contains('\n'));
    assert(!blank.contains('\n'));
    assert forall|m: int| 0 <= m < all_lines.len() implies !(#[trigger] all_lines[m]).contains(
        '\n',
    ) by {}
    lemma_split_join(all_lines, '\n');
    assert(split_sep_spec(log_spec(docs), '\n') == all_lines);
    assert forall|i: int| 0 <= i < blocks.len() implies !(#[trigger] blocks[i]).contains(
        blank,
    ) by {
        if blocks[i].contains(blank) {
            let j = choose|j: int| 0 <= j < blocks[i].len() && blocks[i][j] == blank;
        }
    }
    lemma_split_join(blocks, blank);
    assert(split_sep_spec(all_lines, blank) == blocks);
    lemma_parse_blocks_round(docs);
}

/// Two appended records read back as two documents, in append order.
pub proof fn lemma_two_entries_round_trip(
    d1: Seq<(Seq<char>, Seq<char>)>,
    d2: Seq<(Seq<char>, Seq<char>)>,
)
    requires
        wf_doc(d1),
        wf_doc(d2),
    ensures
        parse_log_spec(log_entry_spec(d1) + log_entry_spec(d2)) == Some(seq![d1, d2]),
{
    let docs = seq![d1, d2];
    assert(docs.skip(1) =~= seq![d2]);
    assert(docs.skip(1).skip(1) =~= Seq::<Seq<(Seq<char>, Seq<char>)>>::empty());
    assert(log_spec(docs.skip(1).skip(1)) =~= Seq::<char>::empty());
    assert(docs.skip(1)[0] == d2);
    assert(log_spec(docs.skip(1)) =~= log_entry_spec(d2));
    assert(log_spec(docs) =~= log_entry_spec(d1) + log_entry_spec(d2));
    lemma_log_round_trip(docs);
}

} // verus!
