use vstd::prelude::*;
use crate::text::{
    chars_of, find_from, find_key_line, first_match, field_value, join_lines, key_line,
    lemma_first_match_is, lemma_join_no_dash, lemma_line_end_bounds, lemma_scan, lemma_split_append,
    lemma_split_comma, lemma_trim_space, line_end, line_end_from, line_field, matches_at,
    occurs_at, single_line, split_commas, split_trimmed, starts_with, trim,
};
use crate::timestamp::{
    format_rfc3339, now, parse_timestamp, rfc3339_parse, rfc3339_text, timestamp_of, Timestamp,
};

verus! {

/// A header field of a stored record.
#[derive(Clone, Copy, Debug, PartialEq, Eq, Structural)]
pub enum Field {
    Id,
    Title,
    Tags,
    CreatedAt,
    UpdatedAt,
}

/// The key of a header field as it stands in a stored record.
pub open spec fn field_name(f: Field) -> Seq<char> {
    match f {
        Field::Id => "id"@,
        Field::Title => "title"@,
        Field::Tags => "tags"@,
        Field::CreatedAt => "created_at"@,
        Field::UpdatedAt => "updated_at"@,
    }
}

impl Field {
    /// The key of the field as it stands in a stored record.
    pub fn name(&self) -> (r: &'static str)
        ensures
            r@ == field_name(*self),
    {
        match self {
            Field::Id => "id",
            Field::Title => "title",
            Field::Tags => "tags",
            Field::CreatedAt => "created_at",
            Field::UpdatedAt => "updated_at",
        }
    }
}

/// Why a text is not a well-formed record.
#[derive(Clone, Debug)]
pub enum FormatError {
    /// The text lacks the opening `---` line or the `---` line and blank line
    /// that close the header.
    MissingDelimiter,
    /// The header has no line for the field.
    MissingField(Field),
    /// The timestamp text of the field is in none of the accepted formats.
    InvalidTimestamp(Field, String),
}

/// A decoding failure as a value of specification.
pub enum FormatFault {
    MissingDelimiter,
    MissingField(Field),
    InvalidTimestamp(Field, Seq<char>),
}

impl View for FormatError {
    type V = FormatFault;

    open spec fn view(&self) -> FormatFault {
        match self {
            FormatError::MissingDelimiter => FormatFault::MissingDelimiter,
            FormatError::MissingField(f) => FormatFault::MissingField(*f),
            FormatError::InvalidTimestamp(f, s) => FormatFault::InvalidTimestamp(*f, s@),
        }
    }
}

/// The description of a decoding failure.
pub open spec fn fault_message(e: FormatFault) -> Seq<char> {
    match e {
        FormatFault::MissingDelimiter => "Invalid markdown format"@,
        FormatFault::MissingField(f) => "Missing "@ + field_name(f),
        FormatFault::InvalidTimestamp(f, s) => "Invalid "@ + field_name(f) + " format: "@ + s,
    }
}

/// The failure is a timestamp value in none of the accepted formats, with
/// everything before it in the header read: such a record can be recovered.
/// A missing line, timestamp or other, is a structural failure.
pub open spec fn timestamp_fault(e: FormatFault) -> bool {
    e is InvalidTimestamp
}

impl FormatError {
    /// A human-readable description that names the violated field or rule.
    pub fn message(&self) -> (r: String)
        ensures
            r@ == fault_message(self@),
    {
        match self {
            FormatError::MissingDelimiter => "Invalid markdown format".to_owned(),
            FormatError::MissingField(f) => {
                let mut m = "Missing ".to_owned();
                m.append(f.name());
                m
            },
            FormatError::InvalidTimestamp(f, s) => {
                let mut m = "Invalid ".to_owned();
                m.append(f.name());
                m.append(" format: ");
                m.append(s.as_str());
                m
            },
        }
    }

    /// Whether a record that failed this way can be recovered.
    pub fn is_timestamp_fault(&self) -> (r: bool)
        ensures
            r == timestamp_fault(self@),
    {
        match self {
            FormatError::InvalidTimestamp(_, _) => true,
            _ => false,
        }
    }
}

/// A failure of the store.
#[derive(Debug)]
pub enum MemoryError {
    /// The file system failed; the text describes how.
    Io(String),
    /// No record with this id is stored.
    NotFound(String),
    /// A stored record is not well-formed; the text says which field or rule.
    InvalidFormat(String),
}

/// A store failure as a value of specification.
pub enum MemoryFault {
    Io(Seq<char>),
    NotFound(Seq<char>),
    InvalidFormat(Seq<char>),
}

impl View for MemoryError {
    type V = MemoryFault;

    open spec fn view(&self) -> MemoryFault {
        match self {
            MemoryError::Io(s) => MemoryFault::Io(s@),
            MemoryError::NotFound(s) => MemoryFault::NotFound(s@),
            MemoryError::InvalidFormat(s) => MemoryFault::InvalidFormat(s@),
        }
    }
}

/// The description of a store failure.
pub open spec fn error_message(e: MemoryFault) -> Seq<char> {
    match e {
        MemoryFault::Io(s) => "IO error: "@ + s,
        MemoryFault::NotFound(s) => "Memory not found: "@ + s,
        MemoryFault::InvalidFormat(s) => "Invalid memory format: "@ + s,
    }
}

impl MemoryError {
    /// A human-readable description of the failure.
    pub fn message(&self) -> (r: String)
        ensures
            r@ == error_message(self@),
    {
        let (mut m, detail) = match self {
            MemoryError::Io(s) => ("IO error: ".to_owned(), s),
            MemoryError::NotFound(s) => ("Memory not found: ".to_owned(), s),
            MemoryError::InvalidFormat(s) => ("Invalid memory format: ".to_owned(), s),
        };
        m.append(detail.as_str());
        m
    }
}

/// A stored note.
#[derive(Clone, Debug)]
pub struct Memory {
    pub id: String,
    pub title: String,
    pub content: String,
    pub tags: Vec<String>,
    pub created_at: Timestamp,
    pub updated_at: Timestamp,
}

/// A note as a value of specification.
pub struct MemoryView {
    pub id: Seq<char>,
    pub title: Seq<char>,
    pub content: Seq<char>,
    pub tags: Seq<Seq<char>>,
    pub created_at: Timestamp,
    pub updated_at: Timestamp,
}

/// The texts of a sequence of strings.
pub open spec fn texts(v: Seq<String>) -> Seq<Seq<char>> {
    v.map_values(|s: String| s@)
}

impl View for Memory {
    type V = MemoryView;

    open spec fn view(&self) -> MemoryView {
        MemoryView {
            id: self.id@,
            title: self.title@,
            content: self.content@,
            tags: texts(self.tags@),
            created_at: self.created_at,
            updated_at: self.updated_at,
        }
    }
}

impl Memory {
    /// Both timestamps are instants that can be written.
    pub open spec fn wf(&self) -> bool {
        self.created_at.wf() && self.updated_at.wf()
    }
}

/// The tags written one after another, separated by a comma and a space.
pub open spec fn join_tags(tags: Seq<Seq<char>>) -> Seq<char>
    decreases tags.len(),
{
    if tags.len() == 0 {
        Seq::empty()
    } else if tags.len() == 1 {
        tags[0]
    } else {
        join_tags(tags.drop_last()) + ", "@ + tags.last()
    }
}

/// The header lines of a record, without the newline after the last one.
pub open spec fn header_text(m: MemoryView) -> Seq<char> {
    "id: "@ + m.id + "\ntitle: "@ + m.title + "\ntags: ["@ + join_tags(m.tags) + "]\ncreated_at: "@
        + rfc3339_text(m.created_at) + "\nupdated_at: "@ + rfc3339_text(m.updated_at)
}

/// The stored text of a record: the header between `---` lines, a blank line,
/// then the body verbatim.
pub open spec fn encode(m: MemoryView) -> Seq<char> {
    "---\n"@ + header_text(m) + "\n---\n\n"@ + m.content
}

/// The header and the body of a text: the text opens with a `---` line, and the
/// header ends at the first newline that a `---` line and a blank line follow.
pub open spec fn frame(t: Seq<char>) -> Option<(Seq<char>, Seq<char>)> {
    let open = "---\n"@;
    let close = "\n---\n\n"@;
    if occurs_at(t, open, 0) {
        match first_match(t, close, open.len() as int) {
            Some(p) => Some((t.subrange(open.len() as int, p), t.subrange(p + close.len(), t.len() as int))),
            None => None,
        }
    } else {
        None
    }
}

/// The tags written between brackets: none for empty brackets, else the pieces
/// between commas, trimmed.
pub open spec fn tag_list(inner: Seq<char>) -> Seq<Seq<char>> {
    if inner.len() == 0 {
        Seq::empty()
    } else {
        split_commas(inner).map_values(|p: Seq<char>| trim(p))
    }
}

/// The tags of a `tags:` value that opens with `[` and closes with `]`.
pub open spec fn strict_tags(v: Seq<char>) -> Option<Seq<Seq<char>>> {
    if v.len() >= 2 && v[0] == '[' && v.last() == ']' {
        Some(tag_list(v.subrange(1, v.len() - 1)))
    } else {
        None
    }
}

/// The tags of a `tags:` value that opens with `[`, up to the first `]`.
pub open spec fn loose_tags(v: Seq<char>) -> Option<Seq<Seq<char>>> {
    if v.len() >= 1 && v[0] == '[' {
        match first_match(v, "]"@, 1) {
            Some(k) => Some(tag_list(v.subrange(1, k))),
            None => None,
        }
    } else {
        None
    }
}

/// The timestamp of a header field: absent, unreadable, or read.
pub open spec fn timestamp_field(f: Seq<char>, field: Field, key: Seq<char>) -> Result<Timestamp, FormatFault> {
    match field_value(f, key) {
        None => Err(FormatFault::MissingField(field)),
        Some(v) => match timestamp_of(v) {
            None => Err(FormatFault::InvalidTimestamp(field, v)),
            Some(t) => Ok(t),
        },
    }
}

/// The record that a text holds, or the first failure met in reading it: the
/// frame, then `id`, `title`, `tags`, `created_at` and `updated_at` in turn.
pub open spec fn decode(t: Seq<char>) -> Result<MemoryView, FormatFault> {
    match frame(t) {
        None => Err(FormatFault::MissingDelimiter),
        Some((f, content)) => match field_value(f, "id: "@) {
            None => Err(FormatFault::MissingField(Field::Id)),
            Some(id) => match field_value(f, "title: "@) {
                None => Err(FormatFault::MissingField(Field::Title)),
                Some(title) => match field_value(f, "tags: "@) {
                    None => Err(FormatFault::MissingField(Field::Tags)),
                    Some(tv) => match strict_tags(tv) {
                        None => Err(FormatFault::MissingField(Field::Tags)),
                        Some(tags) => match timestamp_field(f, Field::CreatedAt, "created_at: "@) {
                            Err(e) => Err(e),
                            Ok(created_at) => match timestamp_field(f, Field::UpdatedAt, "updated_at: "@) {
                                Err(e) => Err(e),
                                Ok(updated_at) => Ok(
                                    MemoryView { id, title, content, tags, created_at, updated_at },
                                ),
                            },
                        },
                    },
                },
            },
        },
    }
}

/// The record rebuilt from a text's `id`, `title` and `tags` alone, with
/// `now` for both timestamps; the stored timestamps are given up.
pub open spec fn recover(t: Seq<char>, now: Timestamp) -> Option<MemoryView> {
    match frame(t) {
        None => None,
        Some((f, content)) => match field_value(f, "id: "@) {
            None => None,
            Some(id) => match field_value(f, "title: "@) {
                None => None,
                Some(title) => match field_value(f, "tags: "@) {
                    None => None,
                    Some(tv) => match loose_tags(tv) {
                        None => None,
                        Some(tags) => Some(
                            MemoryView { id, title, content, tags, created_at: now, updated_at: now },
                        ),
                    },
                },
            },
        },
    }
}

/// `s` holds no comma.
pub open spec fn comma_free(s: Seq<char>) -> bool {
    forall|k: int| 0 <= k < s.len() ==> s[k] != ','
}

/// The tags, each without its surrounding white space.
pub open spec fn trimmed_tags(tags: Seq<Seq<char>>) -> Seq<Seq<char>> {
    tags.map_values(|t: Seq<char>| trim(t))
}

/// The record as reading it back yields it: its tags trimmed.
pub open spec fn normalized(m: MemoryView) -> MemoryView {
    MemoryView {
        id: m.id,
        title: m.title,
        content: m.content,
        tags: trimmed_tags(m.tags),
        created_at: m.created_at,
        updated_at: m.updated_at,
    }
}

/// The record survives writing and reading: `id`, `title` and each tag stay on
/// their line, no tag holds a comma, the tags are not a single empty one (which
/// is written as no tags), and both timestamps fall in years 0000 to 9999.
pub open spec fn round_trip_safe(m: MemoryView) -> bool {
    &&& single_line(m.id)
    &&& single_line(m.title)
    &&& forall|k: int| 0 <= k < m.tags.len() ==> single_line(#[trigger] m.tags[k]) && comma_free(m.tags[k])
    &&& !(m.tags.len() == 1 && m.tags[0].len() == 0)
    &&& m.created_at.writable_year()
    &&& m.updated_at.writable_year()
}

proof fn lemma_single_line_concat(a: Seq<char>, b: Seq<char>)
    requires
        single_line(a),
        single_line(b),
    ensures
        single_line(a + b),
{
    assert forall|k: int| 0 <= k < (a + b).len() implies (a + b)[k] != '\n' by {
        if k >= a.len() {
            assert((a + b)[k] == b[k - a.len()]);
        }
    }
}

proof fn lemma_join_tags_single_line(tags: Seq<Seq<char>>)
    requires
        forall|k: int| 0 <= k < tags.len() ==> single_line(#[trigger] tags[k]),
    ensures
        single_line(join_tags(tags)),
    decreases tags.len(),
{
    reveal_strlit(", ");
    if tags.len() >= 1 {
        assert(single_line(tags[0]));
    }
    if tags.len() > 1 {
        lemma_join_tags_single_line(tags.drop_last());
        assert(single_line(tags.last()));
        lemma_single_line_concat(join_tags(tags.drop_last()), ", "@);
        lemma_single_line_concat(join_tags(tags.drop_last()) + ", "@, tags.last());
    }
}

/// Cutting the joined tags at commas gives the tags back, each after the first
/// with the space that joined it.
proof fn lemma_split_join(tags: Seq<Seq<char>>)
    requires
        tags.len() >= 1,
        forall|k: int| 0 <= k < tags.len() ==> comma_free(#[trigger] tags[k]),
    ensures
        split_commas(join_tags(tags)).len() == tags.len(),
        split_commas(join_tags(tags))[0] == tags[0],
        forall|k: int|
            1 <= k < tags.len() ==> #[trigger] split_commas(join_tags(tags))[k] == seq![' '] + tags[k],
    decreases tags.len(),
{
    reveal_strlit(", ");
    if tags.len() == 1 {
        assert(comma_free(tags[0]));
        lemma_split_append(Seq::empty(), tags[0]);
        assert(split_commas(Seq::<char>::empty()) == seq![Seq::<char>::empty()]);
        assert(Seq::<char>::empty() + tags[0] =~= tags[0]);
    } else {
        let init = tags.drop_last();
        let last = tags.last();
        assert(comma_free(last));
        lemma_split_join(init);
        let x = join_tags(init);
        assert(join_tags(tags) == x + ", "@ + last);
        assert(x + ", "@ + last =~= x.push(',') + (seq![' '] + last));
        lemma_split_comma(x);
        lemma_split_append(x.push(','), seq![' '] + last);
        assert(Seq::<char>::empty() + (seq![' '] + last) =~= seq![' '] + last);
        assert forall|k: int| 1 <= k < tags.len() implies #[trigger] split_commas(join_tags(tags))[k]
            == seq![' '] + tags[k] by {
            if k < tags.len() - 1 {
                assert(init[k] == tags[k]);
            }
        }
    }
}

/// Reading the joined tags back gives the tags trimmed.
proof fn lemma_tag_list_join(tags: Seq<Seq<char>>)
    requires
        forall|k: int| 0 <= k < tags.len() ==> comma_free(#[trigger] tags[k]),
        !(tags.len() == 1 && tags[0].len() == 0),
    ensures
        tag_list(join_tags(tags)) == trimmed_tags(tags),
{
    reveal_strlit(", ");
    let j = join_tags(tags);
    if tags.len() == 0 {
        assert(tag_list(j) =~= trimmed_tags(tags));
    } else {
        if tags.len() > 1 {
            assert(j == join_tags(tags.drop_last()) + ", "@ + tags.last());
        }
        assert(j.len() > 0);
        lemma_split_join(tags);
        assert forall|k: int| 0 <= k < tags.len() implies #[trigger] tag_list(j)[k] == trim(tags[k]) by {
            if k > 0 {
                lemma_trim_space(tags[k]);
            }
        }
        assert(tag_list(j) =~= trimmed_tags(tags));
    }
}

proof fn lemma_not_starts(l: Seq<char>, key: Seq<char>, idx: int)
    requires
        0 <= idx < key.len(),
        idx < l.len(),
        l[idx] != key[idx],
    ensures
        !starts_with(l, key),
{
    if starts_with(l, key) {
        assert(l.subrange(0, key.len() as int)[idx] == l[idx]);
    }
}

proof fn lemma_starts(key: Seq<char>, rest: Seq<char>)
    ensures
        starts_with(key + rest, key),
        (key + rest).subrange(key.len() as int, (key + rest).len() as int) == rest,
{
    assert((key + rest).subrange(0, key.len() as int) =~= key);
    assert((key + rest).subrange(key.len() as int, (key + rest).len() as int) =~= rest);
}

/// A record that survives writing and reading is read back as written, its
/// tags trimmed, given that each timestamp text is one line that chrono reads
/// back as the same instant.
pub proof fn lemma_decode_encode(m: MemoryView)
    requires
        round_trip_safe(m),
        single_line(rfc3339_text(m.created_at)),
        single_line(rfc3339_text(m.updated_at)),
        rfc3339_parse(rfc3339_text(m.created_at)) == Some(m.created_at),
        rfc3339_parse(rfc3339_text(m.updated_at)) == Some(m.updated_at),
    ensures
        decode(encode(m)) == Ok::<MemoryView, FormatFault>(normalized(m)),
{
    reveal_strlit("id: ");
    reveal_strlit("\ntitle: ");
    reveal_strlit("\ntags: [");
    reveal_strlit("]\ncreated_at: ");
    reveal_strlit("\nupdated_at: ");
    reveal_strlit("---\n");
    reveal_strlit("\n---\n\n");
    reveal_strlit("title: ");
    reveal_strlit("tags: ");
    reveal_strlit("created_at: ");
    reveal_strlit("updated_at: ");
    let c = rfc3339_text(m.created_at);
    let u = rfc3339_text(m.updated_at);
    let j = join_tags(m.tags);
    assert forall|k: int| 0 <= k < m.tags.len() implies single_line(#[trigger] m.tags[k]) by {}
    assert forall|k: int| 0 <= k < m.tags.len() implies comma_free(#[trigger] m.tags[k]) by {}
    lemma_join_tags_single_line(m.tags);
    lemma_tag_list_join(m.tags);
    let tv = seq!['['] + j + seq![']'];
    let l0 = "id: "@ + m.id;
    let l1 = "title: "@ + m.title;
    let l2 = "tags: "@ + tv;
    let l3 = "created_at: "@ + c;
    let l4 = "updated_at: "@ + u;
    let ls = seq![l0, l1, l2, l3, l4];
    let h = header_text(m);
    assert(single_line("id: "@));
    assert(single_line("title: "@));
    assert(single_line("tags: "@));
    assert(single_line("created_at: "@));
    assert(single_line("updated_at: "@));
    assert(single_line(seq!['[']));
    assert(single_line(seq![']']));
    lemma_single_line_concat(seq!['['], j);
    lemma_single_line_concat(seq!['['] + j, seq![']']);
    lemma_single_line_concat("id: "@, m.id);
    lemma_single_line_concat("title: "@, m.title);
    lemma_single_line_concat("tags: "@, tv);
    lemma_single_line_concat("created_at: "@, c);
    lemma_single_line_concat("updated_at: "@, u);
    assert(ls.drop_first() =~= seq![l1, l2, l3, l4]);
    assert(seq![l1, l2, l3, l4].drop_first() =~= seq![l2, l3, l4]);
    assert(seq![l2, l3, l4].drop_first() =~= seq![l3, l4]);
    assert(seq![l3, l4].drop_first() =~= seq![l4]);
    assert(join_lines(seq![l4]) == l4);
    assert(join_lines(seq![l3, l4]) == l3 + seq!['\n'] + l4);
    assert(join_lines(seq![l2, l3, l4]) == l2 + seq!['\n'] + join_lines(seq![l3, l4]));
    assert(join_lines(seq![l1, l2, l3, l4]) == l1 + seq!['\n'] + join_lines(seq![l2, l3, l4]));
    assert(join_lines(ls) == l0 + seq!['\n'] + join_lines(seq![l1, l2, l3, l4]));
    assert(h =~= join_lines(ls));
    assert forall|k: int| 0 <= k < ls.len() implies single_line(#[trigger] ls[k]) by {}
    assert forall|k: int| 0 <= k < ls.len() implies (#[trigger] ls[k]).len() > 0 && ls[k][0] != '-' by {}
    lemma_join_no_dash(ls);
    // The frame.
    let o = "---\n"@;
    let cl = "\n---\n\n"@;
    let t = encode(m);
    let hl = h.len() as int;
    assert(t == o + h + cl + m.content);
    assert(t.subrange(0, 4) =~= o);
    assert(t.subrange(4 + hl, 10 + hl) =~= cl);
    assert forall|q: int| 4 <= q < 4 + hl implies !occurs_at(t, cl, q) by {
        if occurs_at(t, cl, q) {
            assert(t.subrange(q, q + 6)[0] == t[q]);
            assert(t[q] == h[q - 4]);
            assert(h[q - 4] == '\n');
            assert(q - 3 < hl);
            assert(t[q + 1] == h[q - 3]);
            assert(t.subrange(q, q + 6)[1] == t[q + 1]);
        }
    }
    lemma_first_match_is(t, cl, 4, 4 + hl);
    assert(t.subrange(4, 4 + hl) =~= h);
    assert(t.subrange(4 + hl + 6, t.len() as int) =~= m.content);
    assert(frame(t) == Some((h, m.content)));
    // The fields.
    assert(h.subrange(0, hl) =~= h);
    lemma_starts("id: "@, m.id);
    lemma_starts("title: "@, m.title);
    lemma_starts("tags: "@, tv);
    lemma_starts("created_at: "@, c);
    lemma_starts("updated_at: "@, u);
    lemma_not_starts(l0, "title: "@, 0);
    lemma_not_starts(l0, "tags: "@, 0);
    lemma_not_starts(l1, "tags: "@, 1);
    lemma_not_starts(l0, "created_at: "@, 0);
    lemma_not_starts(l1, "created_at: "@, 0);
    lemma_not_starts(l2, "created_at: "@, 0);
    lemma_not_starts(l0, "updated_at: "@, 0);
    lemma_not_starts(l1, "updated_at: "@, 0);
    lemma_not_starts(l2, "updated_at: "@, 0);
    lemma_not_starts(l3, "updated_at: "@, 0);
    let ls1 = seq![l1, l2, l3, l4];
    let ls2 = seq![l2, l3, l4];
    let ls3 = seq![l3, l4];
    let ls4 = seq![l4];
    assert(line_field(ls, "id: "@) == Some(m.id));
    assert(line_field(ls1, "title: "@) == Some(m.title));
    assert(line_field(ls, "title: "@) == Some(m.title));
    assert(line_field(ls2, "tags: "@) == Some(tv));
    assert(line_field(ls1, "tags: "@) == Some(tv));
    assert(line_field(ls, "tags: "@) == Some(tv));
    assert(line_field(ls3, "created_at: "@) == Some(c));
    assert(line_field(ls2, "created_at: "@) == Some(c));
    assert(line_field(ls1, "created_at: "@) == Some(c));
    assert(line_field(ls, "created_at: "@) == Some(c));
    assert(line_field(ls4, "updated_at: "@) == Some(u));
    assert(line_field(ls3, "updated_at: "@) == Some(u));
    assert(line_field(ls2, "updated_at: "@) == Some(u));
    assert(line_field(ls1, "updated_at: "@) == Some(u));
    assert(line_field(ls, "updated_at: "@) == Some(u));
    lemma_scan(h, "id: "@, 0, ls);
    lemma_scan(h, "title: "@, 0, ls);
    lemma_scan(h, "tags: "@, 0, ls);
    lemma_scan(h, "created_at: "@, 0, ls);
    lemma_scan(h, "updated_at: "@, 0, ls);
    assert(tv.subrange(1, tv.len() - 1) =~= j);
    assert(strict_tags(tv) == Some(trimmed_tags(m.tags)));
}

/// `s` is a UUID as text: 36 characters, lowercase hexadecimal digits in
/// groups of 8, 4, 4, 4 and 12 separated by hyphens.
pub open spec fn uuid_text(s: Seq<char>) -> bool {
    &&& s.len() == 36
    &&& forall|i: int|
        0 <= i < 36 ==> if i == 8 || i == 13 || i == 18 || i == 23 {
            s[i] == '-'
        } else {
            ('0' <= #[trigger] s[i] && s[i] <= '9') || ('a' <= s[i] && s[i] <= 'f')
        }
}

/// Relies on `Uuid::new_v4` and its `Display`, which writes the hyphenated
/// lowercase form; the value is random.
#[verifier::external_body]
fn new_uuid() -> (r: String)
    ensures
        uuid_text(r@),
{
    uuid::Uuid::new_v4().to_string()
}

/// A copy of the strings.
fn copy_strings(v: &Vec<String>) -> (r: Vec<String>)
    ensures
        r@ == v@,
{
    let mut r: Vec<String> = Vec::new();
    let mut i: usize = 0;
    while i < v.len()
        invariant
            i <= v@.len(),
            r@ == v@.take(i as int),
        decreases v@.len() - i,
    {
        r.push(v[i].clone());
        assert(r@ =~= v@.take(i + 1));
        i = i + 1;
    }
    assert(v@.take(i as int) =~= v@);
    r
}

/// A text whose frame, `id` and `title` can be read but whose header has no
/// `tags:` line fails to decode for want of tags, described as `Missing tags`.
pub proof fn lemma_missing_tags(t: Seq<char>)
    requires
        frame(t) matches Some(p) && field_value(p.0, "id: "@) is Some && field_value(p.0, "title: "@)
            is Some && field_value(p.0, "tags: "@) is None,
    ensures
        decode(t) == Err::<MemoryView, FormatFault>(FormatFault::MissingField(Field::Tags)),
        fault_message(FormatFault::MissingField(Field::Tags)) == "Missing tags"@,
{
    reveal_strlit("Missing ");
    reveal_strlit("tags");
    reveal_strlit("Missing tags");
    assert("Missing "@ + "tags"@ =~= "Missing tags"@);
}

pub proof fn lemma_key_line(s: Seq<char>, key: Seq<char>, i: int)
    requires
        0 <= i,
    ensures
        key_line(s, key, i) matches Some(k) ==> occurs_at(s, key, k),
    decreases s.len() + 1 - i,
{
    if i <= s.len() && !occurs_at(s, key, i) && line_end(s, i) < s.len() {
        lemma_line_end_bounds(s, i);
        lemma_key_line(s, key, line_end(s, i) + 1);
    }
}

/// What follows `key` on the first line of `front` that begins with it.
fn header_field(fc: &Vec<char>, front: &str, key: &str) -> (r: Option<String>)
    requires
        fc@ == front@,
    ensures
        r matches Some(v) ==> field_value(front@, key@) == Some(v@),
        r is None ==> field_value(front@, key@) is None,
{
    let k = chars_of(key);
    match find_key_line(fc, &k) {
        None => None,
        Some(i) => {
            proof {
                lemma_key_line(fc@, k@, 0);
                assert(occurs_at(fc@, k@, i as int));
                assert(i + k.len() <= fc.len());
                lemma_line_end_bounds(fc@, i + k@.len());
            }
            let e = line_end_from(fc, i + k.len());
            Some(front.substring_char(i + k.len(), e).to_owned())
        },
    }
}

/// The tags written between brackets.
fn tags_between(inner: &str) -> (r: Vec<String>)
    ensures
        texts(r@) == tag_list(inner@),
{
    if inner.unicode_len() == 0 {
        let r: Vec<String> = Vec::new();
        assert(texts(r@) =~= tag_list(inner@));
        r
    } else {
        let r = split_trimmed(inner);
        assert(texts(r@) =~= tag_list(inner@));
        r
    }
}

/// The tags of a `tags:` value that opens with `[` and closes with `]`.
fn read_strict_tags(v: &str) -> (r: Option<Vec<String>>)
    ensures
        r matches Some(t) ==> strict_tags(v@) == Some(texts(t@)),
        r is None ==> strict_tags(v@) is None,
{
    let c = chars_of(v);
    let n = c.len();
    if n >= 2 && c[0] == '[' && c[n - 1] == ']' {
        Some(tags_between(v.substring_char(1, n - 1)))
    } else {
        None
    }
}

/// The tags of a `tags:` value that opens with `[`, up to the first `]`.
fn read_loose_tags(v: &str) -> (r: Option<Vec<String>>)
    ensures
        r matches Some(t) ==> loose_tags(v@) == Some(texts(t@)),
        r is None ==> loose_tags(v@) is None,
{
    let c = chars_of(v);
    let n = c.len();
    if n >= 1 && c[0] == '[' {
        let close = chars_of("]");
        match find_from(&c, &close, 1) {
            Some(k) => {
                proof {
                    crate::text::lemma_first_match(c@, close@, 1);
                }
                Some(tags_between(v.substring_char(1, k)))
            },
            None => None,
        }
    } else {
        None
    }
}

/// The header and the body of a text.
fn read_frame(t: &str) -> (r: Option<(String, String)>)
    ensures
        r matches Some(p) ==> frame(t@) == Some((p.0@, p.1@)),
        r is None ==> frame(t@) is None,
{
    let c = chars_of(t);
    let open = chars_of("---\n");
    let close = chars_of("\n---\n\n");
    if !matches_at(&c, &open, 0) {
        return None;
    }
    match find_from(&c, &close, open.len()) {
        None => None,
        Some(p) => {
            proof {
                crate::text::lemma_first_match(c@, close@, open@.len() as int);
                assert(occurs_at(c@, close@, p as int));
                assert(p + close.len() <= c.len());
            }
            let front = t.substring_char(open.len(), p).to_owned();
            let body = t.substring_char(p + close.len(), c.len()).to_owned();
            Some((front, body))
        },
    }
}

/// The timestamp of a header field.
fn read_timestamp_field(fc: &Vec<char>, front: &str, field: Field, key: &str) -> (r: Result<
    Timestamp,
    FormatError,
>)
    requires
        fc@ == front@,
    ensures
        r matches Ok(t) ==> timestamp_field(front@, field, key@) == Ok::<Timestamp, FormatFault>(t)
            && t.wf(),
        r matches Err(e) ==> timestamp_field(front@, field, key@) == Err::<Timestamp, FormatFault>(
            e@,
        ),
{
    match header_field(fc, front, key) {
        None => Err(FormatError::MissingField(field)),
        Some(v) => match parse_timestamp(v.as_str()) {
            None => Err(FormatError::InvalidTimestamp(field, v)),
            Some(t) => Ok(t),
        },
    }
}

impl Memory {
    /// A new record with a freshly minted id, created and updated now.
    pub fn new(title: String, content: String, tags: Vec<String>) -> (r: Memory)
        ensures
            uuid_text(r.id@),
            r.title == title,
            r.content == content,
            r.tags == tags,
            r.created_at == r.updated_at,
            r.wf(),
    {
        let at = now();
        Memory { id: new_uuid(), title, content, tags, created_at: at, updated_at: at }
    }

    /// A copy of the record.
    pub fn copy(&self) -> (r: Memory)
        ensures
            r@ == self@,
            r.wf() == self.wf(),
    {
        let tags = copy_strings(&self.tags);
        Memory {
            id: self.id.clone(),
            title: self.title.clone(),
            content: self.content.clone(),
            tags,
            created_at: self.created_at,
            updated_at: self.updated_at,
        }
    }

    /// The stored text of the record. A record that survives writing and
    /// reading is read back from it as it was, its tags trimmed.
    pub fn to_markdown(&self) -> (r: String)
        requires
            self.wf(),
        ensures
            r@ == encode(self@),
            round_trip_safe(self@) ==> decode(r@) == Ok::<MemoryView, FormatFault>(normalized(self@)),
    {
        let mut md = "---\n".to_owned();
        md.append("id: ");
        md.append(self.id.as_str());
        md.append("\ntitle: ");
        md.append(self.title.as_str());
        md.append("\ntags: [");
        let mut i: usize = 0;
        let ghost base = md@;
        assert(texts(self.tags@).take(0) =~= Seq::<Seq<char>>::empty());
        while i < self.tags.len()
            invariant
                i <= self.tags@.len(),
                md@ == base + join_tags(texts(self.tags@).take(i as int)),
            decreases self.tags@.len() - i,
        {
            let ghost prev = texts(self.tags@).take(i as int);
            let ghost next = texts(self.tags@).take(i + 1);
            assert(next.drop_last() =~= prev);
            if i > 0 {
                md.append(", ");
            } else {
                assert(next =~= seq![self.tags@[0]@]);
            }
            md.append(self.tags[i].as_str());
            i = i + 1;
        }
        assert(texts(self.tags@).take(i as int) =~= texts(self.tags@));
        md.append("]\ncreated_at: ");
        let created = format_rfc3339(self.created_at);
        md.append(created.as_str());
        md.append("\nupdated_at: ");
        let updated = format_rfc3339(self.updated_at);
        md.append(updated.as_str());
        md.append("\n---\n\n");
        md.append(self.content.as_str());
        proof {
            if round_trip_safe(self@) {
                lemma_decode_encode(self@);
            }
        }
        md
    }

    /// Reads a record from its stored text.
    pub fn decode(text: &str) -> (r: Result<Memory, FormatError>)
        ensures
            r matches Ok(m) ==> decode(text@) == Ok::<MemoryView, FormatFault>(m@) && m.wf(),
            r matches Err(e) ==> decode(text@) == Err::<MemoryView, FormatFault>(e@),
    {
        let (front, content) = match read_frame(text) {
            None => return Err(FormatError::MissingDelimiter),
            Some(p) => p,
        };
        let fc = chars_of(front.as_str());
        let id = match header_field(&fc, front.as_str(), "id: ") {
            None => return Err(FormatError::MissingField(Field::Id)),
            Some(v) => v,
        };
        let title = match header_field(&fc, front.as_str(), "title: ") {
            None => return Err(FormatError::MissingField(Field::Title)),
            Some(v) => v,
        };
        let tv = match header_field(&fc, front.as_str(), "tags: ") {
            None => return Err(FormatError::MissingField(Field::Tags)),
            Some(v) => v,
        };
        let tags = match read_strict_tags(tv.as_str()) {
            None => return Err(FormatError::MissingField(Field::Tags)),
            Some(t) => t,
        };
        let created_at = match read_timestamp_field(&fc, front.as_str(), Field::CreatedAt, "created_at: ") {
            Err(e) => return Err(e),
            Ok(t) => t,
        };
        let updated_at = match read_timestamp_field(&fc, front.as_str(), Field::UpdatedAt, "updated_at: ") {
            Err(e) => return Err(e),
            Ok(t) => t,
        };
        Ok(Memory { id, title, content, tags, created_at, updated_at })
    }

    /// Reads a record from its stored text; a failure is reported as
    /// `InvalidFormat` with the description of what is wrong.
    pub fn from_markdown(markdown: &str) -> (r: Result<Memory, MemoryError>)
        ensures
            r matches Ok(m) ==> decode(markdown@) == Ok::<MemoryView, FormatFault>(m@) && m.wf(),
            r matches Err(e) ==> decode(markdown@) matches Err(f) && e@ == MemoryFault::InvalidFormat(
                fault_message(f),
            ),
    {
        match Memory::decode(markdown) {
            Ok(m) => Ok(m),
            Err(e) => Err(MemoryError::InvalidFormat(e.message())),
        }
    }

    /// Rebuilds a record from the `id`, `title` and `tags` of a text whose
    /// timestamps could not be read, with `now` for both timestamps.
    pub fn recover(text: &str, now: Timestamp) -> (r: Option<Memory>)
        ensures
            r matches Some(m) ==> recover(text@, now) == Some(m@),
            r is None ==> recover(text@, now) is None,
    {
        let (front, content) = match read_frame(text) {
            None => return None,
            Some(p) => p,
        };
        let fc = chars_of(front.as_str());
        let id = match header_field(&fc, front.as_str(), "id: ") {
            None => return None,
            Some(v) => v,
        };
        let title = match header_field(&fc, front.as_str(), "title: ") {
            None => return None,
            Some(v) => v,
        };
        let tv = match header_field(&fc, front.as_str(), "tags: ") {
            None => return None,
            Some(v) => v,
        };
        let tags = match read_loose_tags(tv.as_str()) {
            None => return None,
            Some(t) => t,
        };
        Some(Memory { id, title, content, tags, created_at: now, updated_at: now })
    }
}

} // verus!
