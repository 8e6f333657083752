use vstd::prelude::*;
use crate::memory::{
    decode, fault_message, recover, timestamp_fault, FormatError, FormatFault, Memory,
    MemoryError, MemoryFault, MemoryView,
};
use crate::text::{chars_of, contains_chars, contains_seq, lower_of, lowercase};
use crate::timestamp::{now, Timestamp};

verus! {

/// A file of the store's directory: its name and its text.
pub struct StoredFile {
    pub name: String,
    pub text: String,
}

impl View for StoredFile {
    type V = (Seq<char>, Seq<char>);

    open spec fn view(&self) -> (Seq<char>, Seq<char>) {
        (self.name@, self.text@)
    }
}

/// The names and texts of files.
pub open spec fn file_views(v: Seq<StoredFile>) -> Seq<(Seq<char>, Seq<char>)> {
    v.map_values(|f: StoredFile| f@)
}

/// The records as values of specification.
pub open spec fn memory_views(v: Seq<Memory>) -> Seq<MemoryView> {
    v.map_values(|m: Memory| m@)
}

/// The text of an optional string.
pub open spec fn opt_text(o: Option<String>) -> Option<Seq<char>> {
    match o {
        Some(s) => Some(s@),
        None => None,
    }
}

/// The name of the file that holds the record `id`.
pub open spec fn record_file_name(id: Seq<char>) -> Seq<char> {
    id + ".md"@
}

/// The path of `name` inside the directory `base`.
pub open spec fn path_in(base: Seq<char>, name: Seq<char>) -> Seq<char> {
    if base.len() == 0 || base.last() == '/' {
        base + name
    } else {
        base + "/"@ + name
    }
}

/// A file of this name holds a record: it has a stem and the extension `md`.
pub open spec fn is_record_file(name: Seq<char>) -> bool {
    name.len() > 3 && name.subrange(name.len() - 3, name.len() as int) == ".md"@
}

/// The record that listing takes from a file: none from a file of another
/// kind; else the record it holds; else, where only its timestamps failed, the
/// record recovered with `now`; else none.
pub open spec fn listed_record(f: (Seq<char>, Seq<char>), now: Timestamp) -> Option<MemoryView> {
    if !is_record_file(f.0) {
        None
    } else {
        match decode(f.1) {
            Ok(m) => Some(m),
            Err(e) => if timestamp_fault(e) {
                recover(f.1, now)
            } else {
                None
            },
        }
    }
}

/// The records that listing takes from the files, in the files' order.
pub open spec fn listing(files: Seq<(Seq<char>, Seq<char>)>, now: Timestamp) -> Seq<MemoryView>
    decreases files.len(),
{
    if files.len() == 0 {
        Seq::empty()
    } else {
        let prev = listing(files.drop_last(), now);
        match listed_record(files.last(), now) {
            Some(m) => prev.push(m),
            None => prev,
        }
    }
}

/// The rewrite that the repair pass makes of a file: the recovered record in
/// canonical form, for a record file whose timestamps alone failed.
pub open spec fn repaired_text(f: (Seq<char>, Seq<char>), now: Timestamp) -> Option<Seq<char>> {
    if is_record_file(f.0) && decode(f.1) is Err && timestamp_fault(decode(f.1)->Err_0) {
        match recover(f.1, now) {
            Some(m) => Some(crate::memory::encode(m)),
            None => None,
        }
    } else {
        None
    }
}

/// The rewrites of the repair pass, in the files' order.
pub open spec fn repairs(files: Seq<(Seq<char>, Seq<char>)>, now: Timestamp) -> Seq<(Seq<char>, Seq<char>)>
    decreases files.len(),
{
    if files.len() == 0 {
        Seq::empty()
    } else {
        let prev = repairs(files.drop_last(), now);
        match repaired_text(files.last(), now) {
            Some(t) => prev.push((files.last().0, t)),
            None => prev,
        }
    }
}

/// Why listing passes over a file: it is a record file that holds no record
/// and could not be recovered; the failure is the first met in reading it.
pub open spec fn skip_reason(f: (Seq<char>, Seq<char>), now: Timestamp) -> Option<FormatFault> {
    if is_record_file(f.0) && decode(f.1) is Err && listed_record(f, now) is None {
        Some(decode(f.1)->Err_0)
    } else {
        None
    }
}

/// The files that listing passes over, with why, in the files' order.
pub open spec fn skips(files: Seq<(Seq<char>, Seq<char>)>, now: Timestamp) -> Seq<(Seq<char>, FormatFault)>
    decreases files.len(),
{
    if files.len() == 0 {
        Seq::empty()
    } else {
        let prev = skips(files.drop_last(), now);
        match skip_reason(files.last(), now) {
            Some(e) => prev.push((files.last().0, e)),
            None => prev,
        }
    }
}

/// The names and failures of skipped files.
pub open spec fn skip_views(v: Seq<(String, FormatError)>) -> Seq<(Seq<char>, FormatFault)> {
    v.map_values(|p: (String, FormatError)| (p.0@, p.1@))
}

/// The tags, each lowercased.
pub open spec fn lowered(tags: Seq<Seq<char>>) -> Seq<Seq<char>> {
    tags.map_values(|t: Seq<char>| lower_of(t))
}

/// The query stands in the title, the body or one of the tags.
pub open spec fn query_in(title: Seq<char>, content: Seq<char>, tags: Seq<Seq<char>>, q: Seq<char>) -> bool {
    ||| contains_seq(title, q)
    ||| contains_seq(content, q)
    ||| exists|k: int| 0 <= k < tags.len() && contains_seq(#[trigger] tags[k], q)
}

/// One of the tags equals `t`.
pub open spec fn tag_in(tags: Seq<Seq<char>>, t: Seq<char>) -> bool {
    exists|k: int| 0 <= k < tags.len() && #[trigger] tags[k] == t
}

/// The record matches a lowercased query: the query stands in the lowercased
/// title, body or one of the lowercased tags.
pub open spec fn matches_query(m: MemoryView, lq: Seq<char>) -> bool {
    query_in(lower_of(m.title), lower_of(m.content), lowered(m.tags), lq)
}

/// The records that match a lowercased query, in order.
pub open spec fn query_hits(ms: Seq<MemoryView>, lq: Seq<char>) -> Seq<MemoryView>
    decreases ms.len(),
{
    if ms.len() == 0 {
        Seq::empty()
    } else {
        let prev = query_hits(ms.drop_last(), lq);
        if matches_query(ms.last(), lq) {
            prev.push(ms.last())
        } else {
            prev
        }
    }
}

/// One of the record's tags, lowercased, equals the lowercased tag.
pub open spec fn has_tag(m: MemoryView, lt: Seq<char>) -> bool {
    tag_in(lowered(m.tags), lt)
}

/// An empty query matches every record.
pub proof fn lemma_empty_query_hits(ms: Seq<MemoryView>, lq: Seq<char>)
    requires
        lq.len() == 0,
    ensures
        query_hits(ms, lq) == ms,
    decreases ms.len(),
{
    if ms.len() > 0 {
        lemma_empty_query_hits(ms.drop_last(), lq);
        let t = lower_of(ms.last().title);
        assert(t.subrange(0, 0) =~= lq);
        assert(crate::text::occurs_at(t, lq, 0));
        assert(ms.drop_last().push(ms.last()) =~= ms);
    }
}

/// The records that carry a lowercased tag, in order.
pub open spec fn tag_hits(ms: Seq<MemoryView>, lt: Seq<char>) -> Seq<MemoryView>
    decreases ms.len(),
{
    if ms.len() == 0 {
        Seq::empty()
    } else {
        let prev = tag_hits(ms.drop_last(), lt);
        if has_tag(ms.last(), lt) {
            prev.push(ms.last())
        } else {
            prev
        }
    }
}

/// What `get` gives for `id`, given the text of its file, if there is one.
pub open spec fn get_outcome(id: Seq<char>, stored: Option<Seq<char>>) -> Result<MemoryView, MemoryFault> {
    match stored {
        None => Err(MemoryFault::NotFound(id)),
        Some(t) => match decode(t) {
            Ok(m) => Ok(m),
            Err(f) => Err(MemoryFault::InvalidFormat(fault_message(f))),
        },
    }
}

/// What `delete` gives for `id`, given whether its file exists.
pub open spec fn delete_outcome(id: Seq<char>, exists: bool) -> Result<(), MemoryFault> {
    if exists {
        Ok(())
    } else {
        Err(MemoryFault::NotFound(id))
    }
}

/// What `get` gives for `id` in a directory, given as the text of each file
/// by name.
pub open spec fn get_in(dir: Map<Seq<char>, Seq<char>>, id: Seq<char>) -> Result<MemoryView, MemoryFault> {
    let name = record_file_name(id);
    get_outcome(id, if dir.contains_key(name) { Some(dir[name]) } else { None })
}

/// What deleting `id` from a directory gives, and the directory after it.
pub open spec fn delete_in(dir: Map<Seq<char>, Seq<char>>, id: Seq<char>) -> (Result<(), MemoryFault>, Map<Seq<char>, Seq<char>>) {
    let name = record_file_name(id);
    let r = delete_outcome(id, dir.contains_key(name));
    if r is Ok {
        (r, dir.remove(name))
    } else {
        (r, dir)
    }
}

/// Getting or deleting a record whose file is absent fails with `NotFound`
/// naming the id, and deleting it leaves the directory as it was.
pub proof fn lemma_absent_not_found(dir: Map<Seq<char>, Seq<char>>, id: Seq<char>)
    requires
        !dir.contains_key(record_file_name(id)),
    ensures
        get_in(dir, id) == Err::<MemoryView, MemoryFault>(MemoryFault::NotFound(id)),
        delete_in(dir, id) == (Err::<(), MemoryFault>(MemoryFault::NotFound(id)), dir),
{
}

/// Deleting a stored record succeeds once, and a second deletion of the same
/// id fails with `NotFound`.
pub proof fn lemma_delete_twice(dir: Map<Seq<char>, Seq<char>>, id: Seq<char>)
    requires
        dir.contains_key(record_file_name(id)),
    ensures
        delete_in(dir, id).0 is Ok,
        !delete_in(dir, id).1.contains_key(record_file_name(id)),
        delete_in(delete_in(dir, id).1, id).0 == Err::<(), MemoryFault>(MemoryFault::NotFound(id)),
{
}

/// Every record that listing takes from a file stands in the listing.
pub proof fn lemma_listing_contains(files: Seq<(Seq<char>, Seq<char>)>, k: int, now: Timestamp)
    requires
        0 <= k < files.len(),
        listed_record(files[k], now) is Some,
    ensures
        listing(files, now).contains(listed_record(files[k], now)->Some_0),
    decreases files.len(),
{
    let m = listed_record(files[k], now)->Some_0;
    let prev = listing(files.drop_last(), now);
    if k == files.len() - 1 {
        assert(listing(files, now) == prev.push(m));
        assert(listing(files, now)[prev.len() as int] == m);
    } else {
        assert(files.drop_last()[k] == files[k]);
        lemma_listing_contains(files.drop_last(), k, now);
        let i = choose|i: int| 0 <= i < prev.len() && prev[i] == m;
        match listed_record(files.last(), now) {
            Some(x) => {
                assert(listing(files, now)[i] == m);
            },
            None => {
                assert(listing(files, now)[i] == m);
            },
        }
    }
}

/// A record file whose header is whole but whose timestamps cannot be read is
/// listed all the same, recovered with the time given, while `get` on it fails.
pub proof fn lemma_recovery_inclusion(files: Seq<(Seq<char>, Seq<char>)>, k: int, now: Timestamp, id: Seq<char>)
    requires
        0 <= k < files.len(),
        is_record_file(files[k].0),
        decode(files[k].1) is Err,
        timestamp_fault(decode(files[k].1)->Err_0),
    ensures
        recover(files[k].1, now) matches Some(m) && listing(files, now).contains(m) && m.created_at == now
            && m.updated_at == now,
        get_outcome(id, Some(files[k].1)) is Err,
{
    let t = files[k].1;
    let f = crate::memory::frame(t)->Some_0.0;
    let tv = crate::text::field_value(f, "tags: "@)->Some_0;
    reveal_strlit("]");
    let n = tv.len() as int;
    assert(tv.subrange(n - 1, n) =~= "]"@);
    assert(crate::text::occurs_at(tv, "]"@, n - 1));
    crate::text::lemma_first_match(tv, "]"@, 1);
    assert(crate::memory::loose_tags(tv) is Some);
    lemma_listing_contains(files, k, now);
}

/// The path of `name` inside the directory `base`.
pub fn join_path(base: &str, name: &str) -> (r: String)
    ensures
        r@ == path_in(base@, name@),
{
    let mut p = base.to_owned();
    let c = chars_of(base);
    if c.len() > 0 && c[c.len() - 1] != '/' {
        p.append("/");
    }
    p.append(name);
    p
}

/// A store of records, one file per record, in a directory of its own.
pub struct MemoryStore {
    pub base_path: String,
}

impl MemoryStore {
    /// A store over the directory `base_path`.
    pub fn new(base_path: String) -> (r: MemoryStore)
        ensures
            r.base_path == base_path,
    {
        MemoryStore { base_path }
    }

    /// The path of the file that holds the record `id`.
    pub fn get_memory_path(&self, id: &str) -> (r: String)
        ensures
            r@ == path_in(self.base_path@, record_file_name(id@)),
    {
        let mut name = id.to_owned();
        name.append(".md");
        join_path(self.base_path.as_str(), name.as_str())
    }

    /// Whether a file of this name holds a record.
    pub fn is_record_file(name: &str) -> (r: bool)
        ensures
            r == is_record_file(name@),
    {
        let c = chars_of(name);
        let n = c.len();
        let ext = chars_of(".md");
        proof {
            reveal_strlit(".md");
        }
        if n <= 3 {
            return false;
        }
        let r = crate::text::matches_at(&c, &ext, n - 3);
        assert(r == (name@.subrange(n - 3, n as int) == ".md"@));
        r
    }

    /// The path and the text to write so that the record is stored.
    pub fn save(&self, memory: &Memory) -> (r: (String, String))
        requires
            memory.wf(),
        ensures
            r.0@ == path_in(self.base_path@, record_file_name(memory.id@)),
            r.1@ == crate::memory::encode(memory@),
    {
        (self.get_memory_path(memory.id.as_str()), memory.to_markdown())
    }

    /// The record `id`, given the text of its file, or `None` where no such
    /// file exists; a text that is not a well-formed record is reported, not
    /// recovered.
    pub fn get(&self, id: &str, stored: Option<String>) -> (r: Result<Memory, MemoryError>)
        ensures
            r matches Ok(m) ==> get_outcome(id@, opt_text(stored)) == Ok::<MemoryView, MemoryFault>(m@),
            r matches Err(e) ==> get_outcome(id@, opt_text(stored)) == Err::<MemoryView, MemoryFault>(e@),
    {
        match stored {
            None => Err(MemoryError::NotFound(id.to_owned())),
            Some(t) => Memory::from_markdown(t.as_str()),
        }
    }

    /// The path of the file to remove so that the record `id` is deleted, given
    /// whether that file exists.
    pub fn delete(&self, id: &str, exists: bool) -> (r: Result<String, MemoryError>)
        ensures
            r is Ok <==> delete_outcome(id@, exists) is Ok,
            r matches Ok(p) ==> p@ == path_in(self.base_path@, record_file_name(id@)),
            r matches Err(e) ==> delete_outcome(id@, exists) == Err::<(), MemoryFault>(e@),
    {
        if exists {
            Ok(self.get_memory_path(id))
        } else {
            Err(MemoryError::NotFound(id.to_owned()))
        }
    }

    /// The record that listing takes from one file.
    fn listed_record(f: &StoredFile, now: Timestamp) -> (r: Option<Memory>)
        requires
            now.wf(),
        ensures
            r matches Some(m) ==> listed_record(f@, now) == Some(m@) && m.wf(),
            r is None ==> listed_record(f@, now) is None,
    {
        if !MemoryStore::is_record_file(f.name.as_str()) {
            return None;
        }
        match Memory::decode(f.text.as_str()) {
            Ok(m) => Some(m),
            Err(e) => if e.is_timestamp_fault() {
                Memory::recover(f.text.as_str(), now)
            } else {
                None
            },
        }
    }

    /// The records of the directory's files, recovering with `now` those whose
    /// timestamps alone failed, and passing over the files that hold none.
    pub fn list_at(&self, files: &Vec<StoredFile>, now: Timestamp) -> (r: Vec<Memory>)
        requires
            now.wf(),
        ensures
            memory_views(r@) == listing(file_views(files@), now),
            forall|k: int| 0 <= k < r@.len() ==> (#[trigger] r@[k]).wf(),
    {
        let mut out: Vec<Memory> = Vec::new();
        let mut i: usize = 0;
        while i < files.len()
            invariant
                i <= files@.len(),
                now.wf(),
                memory_views(out@) == listing(file_views(files@).take(i as int), now),
                forall|k: int| 0 <= k < out@.len() ==> (#[trigger] out@[k]).wf(),
            decreases files@.len() - i,
        {
            assert(file_views(files@).take(i + 1).drop_last() =~= file_views(files@).take(i as int));
            match MemoryStore::listed_record(&files[i], now) {
                Some(m) => {
                    out.push(m);
                    assert(memory_views(out@) =~= memory_views(out@).drop_last().push(m@));
                    assert(memory_views(out@).drop_last() =~= memory_views(out@.drop_last()));
                },
                None => {},
            }
            i = i + 1;
        }
        assert(file_views(files@).take(i as int) =~= file_views(files@));
        out
    }

    /// The records of the directory's files, as `list_at` takes them, with the
    /// time now for those recovered.
    pub fn list(&self, files: &Vec<StoredFile>) -> (r: Vec<Memory>)
        ensures
            exists|t: Timestamp| t.wf() && memory_views(r@) == listing(file_views(files@), t),
    {
        let t = now();
        self.list_at(files, t)
    }

    /// The records of the directory's files that match `query`, ignoring case,
    /// in their title, body or one of their tags.
    pub fn search(&self, files: &Vec<StoredFile>, query: &str) -> (r: Vec<Memory>)
        ensures
            exists|t: Timestamp|
                t.wf() && memory_views(r@) == query_hits(listing(file_views(files@), t), lower_of(query@)),
    {
        let all = self.list(files);
        filter_by_query(&all, query)
    }

    /// The records of the directory's files that carry `tag`, ignoring case.
    pub fn search_by_tag(&self, files: &Vec<StoredFile>, tag: &str) -> (r: Vec<Memory>)
        ensures
            exists|t: Timestamp|
                t.wf() && memory_views(r@) == tag_hits(listing(file_views(files@), t), lower_of(tag@)),
    {
        let all = self.list(files);
        filter_by_tag(&all, tag)
    }

    /// The record rebuilt from a text whose timestamps could not be read, with
    /// the time now for both timestamps.
    pub fn try_fix_memory_file(&self, content: &str) -> (r: Option<Memory>)
        ensures
            exists|t: Timestamp|
                t.wf() && (match r {
                    Some(m) => recover(content@, t) == Some(m@),
                    None => recover(content@, t) is None,
                }),
    {
        let t = now();
        Memory::recover(content, t)
    }

    /// The record files that listing with `now` passes over, each with the
    /// failure met in reading it.
    pub fn skipped_files(&self, files: &Vec<StoredFile>, now: Timestamp) -> (r: Vec<(String, FormatError)>)
        requires
            now.wf(),
        ensures
            skip_views(r@) == skips(file_views(files@), now),
    {
        let mut out: Vec<(String, FormatError)> = Vec::new();
        let mut i: usize = 0;
        while i < files.len()
            invariant
                i <= files@.len(),
                now.wf(),
                skip_views(out@) == skips(file_views(files@).take(i as int), now),
            decreases files@.len() - i,
        {
            assert(file_views(files@).take(i + 1).drop_last() =~= file_views(files@).take(i as int));
            let f = &files[i];
            if MemoryStore::is_record_file(f.name.as_str()) {
                match Memory::decode(f.text.as_str()) {
                    Ok(_) => {},
                    Err(e) => {
                        let recovered = e.is_timestamp_fault() && Memory::recover(
                            f.text.as_str(),
                            now,
                        ).is_some();
                        if !recovered {
                            out.push((f.name.clone(), e));
                            assert(skip_views(out@) =~= skip_views(out@.drop_last()).push(
                                (out@.last().0@, out@.last().1@),
                            ));
                        }
                    },
                }
            }
            i = i + 1;
        }
        assert(file_views(files@).take(i as int) =~= file_views(files@));
        out
    }

    /// The files to rewrite so that every record whose timestamps alone failed
    /// is stored again in canonical form, recovered with `now`.
    pub fn fix_invalid_memory_files(&self, files: &Vec<StoredFile>, now: Timestamp) -> (r: Vec<StoredFile>)
        requires
            now.wf(),
        ensures
            file_views(r@) == repairs(file_views(files@), now),
    {
        let mut out: Vec<StoredFile> = Vec::new();
        let mut i: usize = 0;
        while i < files.len()
            invariant
                i <= files@.len(),
                now.wf(),
                file_views(out@) == repairs(file_views(files@).take(i as int), now),
            decreases files@.len() - i,
        {
            assert(file_views(files@).take(i + 1).drop_last() =~= file_views(files@).take(i as int));
            let f = &files[i];
            if MemoryStore::is_record_file(f.name.as_str()) {
                match Memory::decode(f.text.as_str()) {
                    Ok(_) => {},
                    Err(e) => {
                        if e.is_timestamp_fault() {
                            match Memory::recover(f.text.as_str(), now) {
                                Some(m) => {
                                    let text = m.to_markdown();
                                    out.push(StoredFile { name: f.name.clone(), text });
                                    assert(file_views(out@) =~= file_views(out@.drop_last()).push(
                                        out@.last()@,
                                    ));
                                },
                                None => {},
                            }
                        }
                    },
                }
            }
            i = i + 1;
        }
        assert(file_views(files@).take(i as int) =~= file_views(files@));
        out
    }
}

/// Whether `query` stands in `title`, `content` or one of `tags`; the search
/// passes the lowercased texts.
pub fn query_matches(title: &str, content: &str, tags: &Vec<String>, query: &str) -> (r: bool)
    ensures
        r == query_in(title@, content@, crate::memory::texts(tags@), query@),
{
    let q = chars_of(query);
    if contains_chars(&chars_of(title), &q) {
        return true;
    }
    if contains_chars(&chars_of(content), &q) {
        return true;
    }
    let mut k: usize = 0;
    while k < tags.len()
        invariant
            k <= tags@.len(),
            q@ == query@,
            !contains_seq(title@, query@),
            !contains_seq(content@, query@),
            forall|j: int| 0 <= j < k ==> !contains_seq(#[trigger] crate::memory::texts(tags@)[j], query@),
        decreases tags@.len() - k,
    {
        assert(crate::memory::texts(tags@)[k as int] == tags@[k as int]@);
        if contains_chars(&chars_of(tags[k].as_str()), &q) {
            return true;
        }
        k = k + 1;
    }
    false
}

/// Whether one of `tags` equals `tag`; the search passes the lowercased texts.
pub fn tag_matches(tags: &Vec<String>, tag: &str) -> (r: bool)
    ensures
        r == tag_in(crate::memory::texts(tags@), tag@),
{
    let mut k: usize = 0;
    while k < tags.len()
        invariant
            k <= tags@.len(),
            forall|j: int| 0 <= j < k ==> #[trigger] crate::memory::texts(tags@)[j] != tag@,
        decreases tags@.len() - k,
    {
        assert(crate::memory::texts(tags@)[k as int] == tags@[k as int]@);
        if crate::text::same_text(tags[k].as_str(), tag) {
            return true;
        }
        k = k + 1;
    }
    false
}

/// The tags, each lowercased.
fn lowered_tags(tags: &Vec<String>) -> (r: Vec<String>)
    ensures
        crate::memory::texts(r@) == lowered(crate::memory::texts(tags@)),
{
    let mut r: Vec<String> = Vec::new();
    let mut k: usize = 0;
    while k < tags.len()
        invariant
            k <= tags@.len(),
            r@.len() == k,
            crate::memory::texts(r@) == lowered(crate::memory::texts(tags@)).take(k as int),
        decreases tags@.len() - k,
    {
        let l = lowercase(tags[k].as_str());
        let ghost prev = r@;
        r.push(l);
        assert(r@ == prev.push(l));
        assert(crate::memory::texts(tags@)[k as int] == tags@[k as int]@);
        assert(lowered(crate::memory::texts(tags@))[k as int] == l@);
        assert(crate::memory::texts(r@)[k as int] == l@);
        assert(crate::memory::texts(r@) =~= lowered(crate::memory::texts(tags@)).take(k + 1)) by {
            assert forall|j: int| 0 <= j < k implies crate::memory::texts(r@)[j] == crate::memory::texts(
                prev,
            )[j] by {
                assert(r@[j] == prev[j]);
            }
        }
        k = k + 1;
    }
    assert(lowered(crate::memory::texts(tags@)).take(k as int) =~= lowered(crate::memory::texts(tags@)));
    r
}

/// Whether the record matches a lowercased query.
fn memory_matches(m: &Memory, lq: &str) -> (r: bool)
    ensures
        r == matches_query(m@, lq@),
{
    let title = lowercase(m.title.as_str());
    let content = lowercase(m.content.as_str());
    let tags = lowered_tags(&m.tags);
    query_matches(title.as_str(), content.as_str(), &tags, lq)
}

/// Whether one of the record's tags, lowercased, equals the lowercased tag.
fn memory_has_tag(m: &Memory, lt: &str) -> (r: bool)
    ensures
        r == has_tag(m@, lt@),
{
    let tags = lowered_tags(&m.tags);
    tag_matches(&tags, lt)
}

/// The records that match `query`, ignoring case, in their title, body or one
/// of their tags, in order.
pub fn filter_by_query(memories: &Vec<Memory>, query: &str) -> (r: Vec<Memory>)
    ensures
        memory_views(r@) == query_hits(memory_views(memories@), lower_of(query@)),
        query@.len() == 0 ==> memory_views(r@) == memory_views(memories@),
{
    let lq = lowercase(query);
    proof {
        if query@.len() == 0 {
            lemma_empty_query_hits(memory_views(memories@), lq@);
        }
    }
    let mut out: Vec<Memory> = Vec::new();
    let mut i: usize = 0;
    while i < memories.len()
        invariant
            i <= memories@.len(),
            lq@ == lower_of(query@),
            memory_views(out@) == query_hits(memory_views(memories@).take(i as int), lq@),
        decreases memories@.len() - i,
    {
        assert(memory_views(memories@).take(i + 1).drop_last() =~= memory_views(memories@).take(i as int));
        if memory_matches(&memories[i], lq.as_str()) {
            out.push(memories[i].copy());
            assert(memory_views(out@) =~= memory_views(out@.drop_last()).push(out@.last()@));
        }
        i = i + 1;
    }
    assert(memory_views(memories@).take(i as int) =~= memory_views(memories@));
    out
}

/// The records that carry `tag`, ignoring case, in order.
pub fn filter_by_tag(memories: &Vec<Memory>, tag: &str) -> (r: Vec<Memory>)
    ensures
        memory_views(r@) == tag_hits(memory_views(memories@), lower_of(tag@)),
{
    let lt = lowercase(tag);
    let mut out: Vec<Memory> = Vec::new();
    let mut i: usize = 0;
    while i < memories.len()
        invariant
            i <= memories@.len(),
            lt@ == lower_of(tag@),
            memory_views(out@) == tag_hits(memory_views(memories@).take(i as int), lt@),
        decreases memories@.len() - i,
    {
        assert(memory_views(memories@).take(i + 1).drop_last() =~= memory_views(memories@).take(i as int));
        if memory_has_tag(&memories[i], lt.as_str()) {
            out.push(memories[i].copy());
            assert(memory_views(out@) =~= memory_views(out@.drop_last()).push(out@.last()@));
        }
        i = i + 1;
    }
    assert(memory_views(memories@).take(i as int) =~= memory_views(memories@));
    out
}

} // verus!
