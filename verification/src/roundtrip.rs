//! Writing a request out and reading it back gives the same request.

use crate::headers::{
    distinct_names, header_lines, lemma_put, named_otherwise, put, Field,
};
use crate::httprequest::{
    feed, has_colon, header_name, header_value, initial, method_of, method_token, parse,
    request_line, request_text, step, version_of, version_token, Method, ParseState, Phase,
    RequestModel, Version,
};
use crate::text::{
    contains_text, index_of, is_whitespace, lemma_lines_have_no_line_feed, lemma_prefix_len,
    lemma_word_has_no_whitespace, other_than, lemma_index_of_join, lemma_lines_join,
    lemma_lines_single, lemma_prefix_len_is, lemma_word_after_space, lemma_word_first, lines,
    occurs_at, word,
};
use vstd::prelude::*;

verus! {

/// A header that survives being written on a line of its own: no line feed
/// in its name or its value, and no colon in its name.
pub open spec fn plain_field(f: Field) -> bool {
    !f.0.contains(':') && !f.0.contains('\n') && !f.1.contains('\n')
}

/// A request that can be written out in full: a method and a version that
/// have a token, a path that is one word, and plain headers with distinct
/// names.
pub open spec fn well_formed(m: RequestModel) -> bool {
    &&& m.method == Method::Get || m.method == Method::Post
    &&& m.version == Version::V1_1
    &&& m.resource.len() > 0
    &&& forall|i: int| 0 <= i < m.resource.len() ==> !is_whitespace(#[trigger] m.resource[i])
    &&& distinct_names(m.headers)
    &&& forall|i: int| 0 <= i < m.headers.len() ==> plain_field(#[trigger] m.headers[i])
}

/// The line that a header is written on, without its line break.
pub open spec fn header_line(f: Field) -> Seq<char> {
    f.0 + ":"@ + f.1
}

/// The lines that headers are written on.
pub open spec fn field_lines(fields: Seq<Field>) -> Seq<Seq<char>> {
    Seq::new(fields.len(), |i: int| header_line(fields[i]))
}

/// Feeding one more line is one more step.
proof fn lemma_feed_push(st: ParseState, ls: Seq<Seq<char>>, line: Seq<char>)
    ensures
        feed(st, ls.push(line)) == step(feed(st, ls), line),
{
    assert(ls.push(line).drop_last() =~= ls);
}

/// Feeding a single line is a single step.
proof fn lemma_feed_one(st: ParseState, line: Seq<char>)
    ensures
        feed(st, seq![line]) == step(st, line),
{
    lemma_feed_push(st, Seq::empty(), line);
    assert(Seq::<Seq<char>>::empty().push(line) =~= seq![line]);
}

/// Feeding two runs of lines one after the other is feeding them joined.
proof fn lemma_feed_concat(st: ParseState, a: Seq<Seq<char>>, b: Seq<Seq<char>>)
    ensures
        feed(st, a + b) == feed(feed(st, a), b),
    decreases b.len(),
{
    if b.len() == 0 {
        assert(a + b =~= a);
    } else {
        lemma_feed_concat(st, a, b.drop_last());
        assert((a + b).drop_last() =~= a + b.drop_last());
        assert((a + b).last() == b.last());
    }
}

/// The header block splits into one line per header.
proof fn lemma_lines_of_headers(fields: Seq<Field>, tail: Seq<char>)
    requires
        forall|i: int| 0 <= i < fields.len() ==> plain_field(#[trigger] fields[i]),
    ensures
        lines(header_lines(fields) + tail) == field_lines(fields) + lines(tail),
    decreases fields.len(),
{
    if fields.len() == 0 {
        assert(header_lines(fields) + tail =~= tail);
        assert(field_lines(fields) + lines(tail) =~= lines(tail));
    } else {
        let front = fields.drop_last();
        let f = fields.last();
        let line = header_line(f);
        assert(plain_field(f));
        assert forall|i: int| 0 <= i < front.len() implies plain_field(#[trigger] front[i]) by {
            assert(front[i] == fields[i]);
        }
        lemma_header_line_reads_back(f);
        lemma_lines_of_headers(front, line + "\r\n"@ + tail);
        lemma_lines_join(line, tail);
        assert(header_lines(fields) + tail =~= header_lines(front) + (line + "\r\n"@ + tail));
        assert(field_lines(front) + (seq![line] + lines(tail)) =~= field_lines(fields) + lines(
            tail,
        ));
    }
}

/// The line of a plain header holds no line feed, and its first colon is
/// the one that ends the name.
proof fn lemma_header_line_reads_back(f: Field)
    requires
        plain_field(f),
    ensures
        !header_line(f).contains('\n'),
        header_line(f).len() > 0,
        has_colon(header_line(f)),
        header_name(header_line(f)) == f.0,
        header_value(header_line(f)) == f.1,
{
    reveal_strlit(":");
    let line = header_line(f);
    assert(":"@ =~= seq![':']);
    assert(line =~= f.0 + seq![':'] + f.1);
    if line.contains('\n') {
        let i = choose|i: int| 0 <= i < line.len() && line[i] == '\n';
        if i < f.0.len() {
            assert(f.0[i] == '\n');
            assert(f.0.contains('\n'));
        } else if i > f.0.len() {
            assert(f.1[i - f.0.len() - 1] == '\n');
            assert(f.1.contains('\n'));
        }
    }
    lemma_index_of_join(f.0, ':', f.1);
    assert(line.take(f.0.len() as int) =~= f.0);
    assert(line.skip(f.0.len() as int + 1) =~= f.1);
}

/// Reading the lines of distinct plain headers, after the request line and
/// before any other header, collects exactly those headers.
proof fn lemma_feed_headers(st: ParseState, fields: Seq<Field>)
    requires
        st.phase == Phase::AwaitingHeaders,
        st.request.headers.len() == 0,
        distinct_names(fields),
        forall|i: int| 0 <= i < fields.len() ==> plain_field(#[trigger] fields[i]),
    ensures
        feed(st, field_lines(fields)) == (ParseState {
            phase: Phase::AwaitingHeaders,
            request: RequestModel { headers: fields, ..st.request },
        }),
    decreases fields.len(),
{
    if fields.len() == 0 {
        assert(st.request.headers =~= fields);
    } else {
        let front = fields.drop_last();
        let f = fields.last();
        assert(plain_field(f));
        assert forall|i: int| 0 <= i < front.len() implies plain_field(#[trigger] front[i]) by {
            assert(front[i] == fields[i]);
        }
        assert(distinct_names(front)) by {
            assert forall|i: int, j: int| 0 <= i < j < front.len() implies front[i].0
                != front[j].0 by {
                assert(front[i] == fields[i] && front[j] == fields[j]);
            }
        }
        lemma_feed_headers(st, front);
        lemma_header_line_reads_back(f);
        assert(field_lines(fields).drop_last() =~= field_lines(front));
        assert(field_lines(fields).last() == header_line(f));
        assert forall|j: int| 0 <= j < front.len() implies named_otherwise(f.0)(
            #[trigger] front[j],
        ) by {
            assert(front[j] == fields[j]);
            assert(fields[j].0 != fields[fields.len() - 1].0);
        }
        lemma_prefix_len_is(front, named_otherwise(f.0), front.len() as int);
        assert(put(front, f.0, f.1) =~= fields);
    }
}

/// Whatever the lines, the headers that the parser has collected carry
/// distinct names.
pub proof fn lemma_parsed_names_are_distinct(st: ParseState, ls: Seq<Seq<char>>)
    requires
        distinct_names(st.request.headers),
    ensures
        distinct_names(feed(st, ls).request.headers),
    decreases ls.len(),
{
    if ls.len() > 0 {
        lemma_parsed_names_are_distinct(st, ls.drop_last());
        let before = feed(st, ls.drop_last());
        lemma_put(before.request.headers, header_name(ls.last()), header_value(ls.last()));
    }
}

/// Once the body is being read, nothing but the body changes.
proof fn lemma_body_keeps_the_rest(st: ParseState, ls: Seq<Seq<char>>)
    requires
        st.phase == Phase::ReadingBody,
    ensures
        feed(st, ls).phase == Phase::ReadingBody,
        feed(st, ls).request.method == st.request.method,
        feed(st, ls).request.version == st.request.version,
        feed(st, ls).request.resource == st.request.resource,
        feed(st, ls).request.headers == st.request.headers,
    decreases ls.len(),
{
    if ls.len() > 0 {
        lemma_body_keeps_the_rest(st, ls.drop_last());
    }
}

/// The request line of a well-formed request reads back as its method, its
/// path and its version.
proof fn lemma_request_line(m: RequestModel)
    requires
        well_formed(m),
    ensures
        contains_text(request_line(m), "HTTP"@),
        !request_line(m).contains('\n'),
        method_of(word(request_line(m), 0)) == m.method,
        word(request_line(m), 1) == m.resource,
        version_of(word(request_line(m), 2)) == m.version,
{
    reveal_strlit("GET");
    reveal_strlit("POST");
    reveal_strlit("HTTP/1.1");
    reveal_strlit("HTTP");
    reveal_strlit(" ");
    let method = method_token(m.method);
    let version = version_token(m.version);
    let line = request_line(m);
    let space = seq![' '];
    assert(" "@ =~= space);
    let after_method = space + (m.resource + (space + version));
    let after_path = space + version;
    assert(line =~= method + after_method);
    assert(is_whitespace(' '));
    assert(method.len() > 0);
    assert forall|i: int| 0 <= i < method.len() implies !is_whitespace(#[trigger] method[i]) by {}
    assert forall|i: int| 0 <= i < version.len() implies !is_whitespace(#[trigger] version[i]) by {}
    assert(after_method[0] == ' ');
    lemma_word_first(method, after_method, 0);
    lemma_word_first(method, after_method, 1);
    lemma_word_first(method, after_method, 2);
    lemma_word_after_space(' ', m.resource + after_path, 0);
    lemma_word_after_space(' ', m.resource + after_path, 1);
    assert(after_path[0] == ' ');
    lemma_word_first(m.resource, after_path, 0);
    lemma_word_first(m.resource, after_path, 1);
    lemma_word_after_space(' ', version, 0);
    lemma_word_first(version, Seq::empty(), 0);
    assert(version + Seq::<char>::empty() =~= version);
    assert(word(line, 0) == method);
    assert(word(line, 1) == m.resource);
    assert(word(line, 2) == version);
    let at = (method.len() + 1 + m.resource.len() + 1) as int;
    assert(line.subrange(at, at + 4) =~= "HTTP"@);
    assert(occurs_at(line, "HTTP"@, at));
    if line.contains('\n') {
        let i = choose|i: int| 0 <= i < line.len() && line[i] == '\n';
        assert(is_whitespace('\n'));
        if i < method.len() {
            assert(line[i] == method[i]);
        } else if i == method.len() {
        } else if i < method.len() + 1 + m.resource.len() {
            assert(line[i] == m.resource[i - method.len() - 1]);
        } else if i == method.len() + 1 + m.resource.len() {
        } else {
            assert(line[i] == version[i - at]);
        }
    }
}

/// A well-formed request that is written out and read back comes back with
/// the same method, path, version and headers; and with the same body too,
/// so that it is the same request, where the body holds no line feed.
pub proof fn lemma_parse_serialize(m: RequestModel)
    requires
        well_formed(m),
    ensures
        parse(request_text(m)).method == m.method,
        parse(request_text(m)).resource == m.resource,
        parse(request_text(m)).version == m.version,
        parse(request_text(m)).headers == m.headers,
        !m.body.contains('\n') ==> parse(request_text(m)) == m,
{
    let line = request_line(m);
    let blank = Seq::<char>::empty();
    let after_headers = "\r\n"@ + m.body;
    lemma_request_line(m);
    assert(request_text(m) =~= line + "\r\n"@ + (header_lines(m.headers) + after_headers));
    lemma_lines_join(line, header_lines(m.headers) + after_headers);
    lemma_lines_of_headers(m.headers, after_headers);
    assert(after_headers =~= blank + "\r\n"@ + m.body);
    lemma_lines_join(blank, m.body);
    let body_lines = lines(m.body);
    let start = seq![line];
    let heads = field_lines(m.headers);
    let gap = seq![blank];
    assert(lines(request_text(m)) =~= start + heads + gap + body_lines);
    lemma_feed_concat(initial(), start + heads + gap, body_lines);
    lemma_feed_concat(initial(), start + heads, gap);
    lemma_feed_concat(initial(), start, heads);
    let s0 = initial();
    let s1 = feed(s0, start);
    lemma_feed_one(s0, line);
    lemma_feed_headers(s1, m.headers);
    let s2 = feed(s1, heads);
    let s3 = feed(s2, gap);
    lemma_feed_one(s2, blank);
    assert(s3.phase == Phase::ReadingBody);
    lemma_body_keeps_the_rest(s3, body_lines);
    if !m.body.contains('\n') {
        lemma_lines_single(m.body);
        if m.body.len() == 0 {
            assert(m.body =~= s3.request.body);
        } else {
            lemma_feed_one(s3, m.body);
        }
    }
}

/// The two parts of a line without a line feed make a plain header.
proof fn lemma_header_of_line_is_plain(line: Seq<char>)
    requires
        !line.contains('\n'),
    ensures
        plain_field((header_name(line), header_value(line))),
{
    let name = header_name(line);
    let value = header_value(line);
    let at = index_of(line, ':') as int;
    lemma_prefix_len(line, other_than(':'));
    if name.contains(':') {
        let j = choose|j: int| 0 <= j < name.len() && name[j] == ':';
        assert(name[j] == line[j]);
        assert(other_than(':')(line[j]));
    }
    if name.contains('\n') {
        let j = choose|j: int| 0 <= j < name.len() && name[j] == '\n';
        assert(line[j] == '\n');
        assert(line.contains('\n'));
    }
    if value.contains('\n') {
        let j = choose|j: int| 0 <= j < value.len() && value[j] == '\n';
        assert(line[at + 1 + j] == '\n');
        assert(line.contains('\n'));
    }
}

/// Whatever the message, the request that it holds has a path without
/// whitespace and plain headers with distinct names.
pub proof fn lemma_parsed_is_plain(text: Seq<char>)
    ensures
        forall|i: int|
            0 <= i < parse(text).resource.len() ==> !is_whitespace(
                #[trigger] parse(text).resource[i],
            ),
        distinct_names(parse(text).headers),
        forall|i: int|
            0 <= i < parse(text).headers.len() ==> plain_field(#[trigger] parse(text).headers[i]),
{
    let ls = lines(text);
    assert forall|i: int| 0 <= i < ls.len() implies !(#[trigger] ls[i]).contains('\n') by {
        lemma_lines_have_no_line_feed(text, i);
    }
    lemma_fed_is_plain(initial(), ls);
    lemma_parsed_names_are_distinct(initial(), ls);
}

/// Lines without line feeds keep the path free of whitespace and the
/// headers plain.
proof fn lemma_fed_is_plain(st: ParseState, ls: Seq<Seq<char>>)
    requires
        forall|i: int|
            0 <= i < st.request.resource.len() ==> !is_whitespace(#[trigger] st.request.resource[i]),
        forall|i: int|
            0 <= i < st.request.headers.len() ==> plain_field(#[trigger] st.request.headers[i]),
        forall|i: int| 0 <= i < ls.len() ==> !(#[trigger] ls[i]).contains('\n'),
    ensures
        forall|i: int|
            0 <= i < feed(st, ls).request.resource.len() ==> !is_whitespace(
                #[trigger] feed(st, ls).request.resource[i],
            ),
        forall|i: int|
            0 <= i < feed(st, ls).request.headers.len() ==> plain_field(
                #[trigger] feed(st, ls).request.headers[i],
            ),
    decreases ls.len(),
{
    if ls.len() > 0 {
        let front = ls.drop_last();
        let line = ls.last();
        assert forall|i: int| 0 <= i < front.len() implies !(#[trigger] front[i]).contains(
            '\n',
        ) by {
            assert(front[i] == ls[i]);
        }
        lemma_fed_is_plain(st, front);
        let before = feed(st, front);
        let after = step(before, line);
        assert(!line.contains('\n')) by {
            assert(line == ls[ls.len() - 1]);
        }
        lemma_word_has_no_whitespace(line, 1);
        lemma_header_of_line_is_plain(line);
        let fields = before.request.headers;
        let added = put(fields, header_name(line), header_value(line));
        assert forall|i: int| 0 <= i < added.len() implies plain_field(#[trigger] added[i]) by {
            if i < fields.len() && added[i] != (header_name(line), header_value(line)) {
                assert(added[i] == fields[i]);
            }
        }
    }
}

/// The body of a request that was read from lines holds no line feed.
proof fn lemma_parsed_body_is_one_line(st: ParseState, ls: Seq<Seq<char>>)
    requires
        !st.request.body.contains('\n'),
        forall|i: int| 0 <= i < ls.len() ==> !(#[trigger] ls[i]).contains('\n'),
    ensures
        !feed(st, ls).request.body.contains('\n'),
    decreases ls.len(),
{
    if ls.len() > 0 {
        let front = ls.drop_last();
        assert forall|i: int| 0 <= i < front.len() implies !(#[trigger] front[i]).contains(
            '\n',
        ) by {
            assert(front[i] == ls[i]);
        }
        lemma_parsed_body_is_one_line(st, front);
        assert(ls.last() == ls[ls.len() - 1]);
    }
}

/// Reading a message, writing the request out and reading it again gives
/// the same method, path, version and headers as the first reading, and in
/// fact the very same request, whenever the first reading found a method
/// and a version that it knows and a path that is not empty.
pub proof fn lemma_reparse(text: Seq<char>)
    requires
        parse(text).method == Method::Get || parse(text).method == Method::Post,
        parse(text).version == Version::V1_1,
        parse(text).resource.len() > 0,
    ensures
        well_formed(parse(text)),
        parse(request_text(parse(text))).method == parse(text).method,
        parse(request_text(parse(text))).resource == parse(text).resource,
        parse(request_text(parse(text))).version == parse(text).version,
        parse(request_text(parse(text))).headers == parse(text).headers,
        parse(request_text(parse(text))) == parse(text),
{
    assert forall|i: int| 0 <= i < lines(text).len() implies !(#[trigger] lines(text)[i]).contains(
        '\n',
    ) by {
        lemma_lines_have_no_line_feed(text, i);
    }
    lemma_parsed_is_plain(text);
    lemma_parsed_body_is_one_line(initial(), lines(text));
    lemma_parse_serialize(parse(text));
}

} // verus!
