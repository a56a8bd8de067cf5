//! Persistent key-value stores: what `memory_load`, `memory_save` and
//! `memory_delete` read and write, kept across runs of a program.
use vstd::prelude::*;

verus! {

/// A key-value store that outlives one run of a program. A store is a map
/// from keys to values: `load` reads it, `save` binds a key, `delete` unbinds
/// one.
pub trait PersistentStore {
    /// What the store holds.
    spec fn contents(&self) -> Map<Seq<char>, Seq<char>>;

    /// The value bound to `key`, if any.
    fn load(&self, key: &str) -> (r: Option<String>)
        ensures
            match r {
                Some(v) => self.contents().contains_key(key@) && v@ == self.contents()[key@],
                None => !self.contents().contains_key(key@),
            };

    /// Binds `key` to `value`.
    fn save(&mut self, key: &str, value: &str)
        ensures
            final(self).contents() == old(self).contents().insert(key@, value@);

    /// Unbinds `key`.
    fn delete(&mut self, key: &str)
        ensures
            final(self).contents() == old(self).contents().remove(key@);
}

/// No key occurs twice among the entries.
pub open spec fn distinct_keys(es: Seq<(String, String)>) -> bool {
    forall|i: int, j: int| 0 <= i < j < es.len() ==> #[trigger] es[i].0@ != #[trigger] es[j].0@
}

/// A store held in memory, for tests.
pub struct InMemoryPersistentStore {
    data: Vec<(String, String)>,
}

impl InMemoryPersistentStore {
    #[verifier::type_invariant]
    spec fn keys_distinct(&self) -> bool {
        distinct_keys(self.data@)
    }

    /// An empty store.
    pub fn new() -> (r: Self)
        ensures
            r.contents() == Map::<Seq<char>, Seq<char>>::empty(),
    {
        InMemoryPersistentStore { data: Vec::new() }
    }

    /// The entries of the store, each key once.
    pub fn data(&self) -> (r: &Vec<(String, String)>)
        ensures
            distinct_keys(r@),
            entries_map(r@) == self.contents(),
    {
        proof {
            use_type_invariant(self);
        }
        &self.data
    }
}

impl PersistentStore for InMemoryPersistentStore {
    closed spec fn contents(&self) -> Map<Seq<char>, Seq<char>> {
        entries_map(self.data@)
    }

    fn load(&self, key: &str) -> (r: Option<String>) {
        lookup_entries(&self.data, key)
    }

    fn save(&mut self, key: &str, value: &str) {
        proof {
            use_type_invariant(&*self);
        }
        let ghost before = self.data@;
        let mut kept = without_entries(&self.data, key);
        proof {
            lemma_without_key(before, key@);
            lemma_without_key_keys(before, key@);
        }
        let entry = (key.to_owned(), value.to_owned());
        let ghost pushed = kept@.push(entry);
        proof {
            assert forall|i: int, j: int| 0 <= i < j < pushed.len() implies #[trigger] pushed[i].0@
                != #[trigger] pushed[j].0@ by {
                if j == pushed.len() - 1 {
                    assert(pushed[i] == kept@[i]);
                } else {
                    assert(pushed[i] == kept@[i] && pushed[j] == kept@[j]);
                }
            }
            assert(pushed.drop_last() =~= kept@);
        }
        kept.push(entry);
        self.data = kept;
        assert(entries_map(self.data@) =~= entries_map(before).insert(key@, value@));
    }

    fn delete(&mut self, key: &str) {
        proof {
            use_type_invariant(&*self);
        }
        let ghost before = self.data@;
        let kept = without_entries(&self.data, key);
        proof {
            lemma_without_key(before, key@);
            lemma_without_key_keys(before, key@);
        }
        self.data = kept;
    }
}

/// The entries whose key is not `key`, in order (see [`without_key`]).
fn without_entries(es: &Vec<(String, String)>, key: &str) -> (r: Vec<(String, String)>)
    ensures
        r@ == without_key(es@, key@),
{
    let mut kept: Vec<(String, String)> = Vec::new();
    let mut i: usize = 0;
    while i < es.len()
        invariant
            i <= es.len(),
            kept@ == without_key(es@.subrange(0, i as int), key@),
        decreases es.len() - i,
    {
        assert(es@.subrange(0, i + 1).drop_last() =~= es@.subrange(0, i as int));
        if !crate::text::str_eq(es[i].0.as_str(), key) {
            let k = es[i].0.clone();
            let v = es[i].1.clone();
            kept.push((k, v));
            assert(kept@[kept@.len() - 1] == es@[i as int]);
        }
        i = i + 1;
    }
    assert(es@.subrange(0, es@.len() as int) =~= es@);
    kept
}

/// The value the entries bind to `key`: the last entry for it wins.
fn lookup_entries(entries: &Vec<(String, String)>, key: &str) -> (r: Option<String>)
    ensures
        match r {
            Some(v) => entries_map(entries@).contains_key(key@) && v@ == entries_map(entries@)[key@],
            None => !entries_map(entries@).contains_key(key@),
        },
{
    let ghost es = entries@;
    let ghost n = es.len() as int;
    let mut i: usize = entries.len();
    assert(es.subrange(n, n) =~= Seq::<(String, String)>::empty());
    while i > 0
        invariant
            i <= entries.len(),
            es == entries@,
            n == es.len(),
            !entries_map(es.subrange(i as int, n)).contains_key(key@),
        decreases i,
    {
        let ghost x = es[i - 1];
        proof {
            lemma_entries_map_split(es.subrange((i - 1) as int, n), 1);
            assert(es.subrange((i - 1) as int, n).subrange(0, 1) =~= seq![x]);
            assert(es.subrange((i - 1) as int, n).subrange(1, n - i + 1) =~= es.subrange(i as int, n));
            assert(seq![x].drop_last() =~= Seq::<(String, String)>::empty());
            assert(entries_map(Seq::<(String, String)>::empty()) == Map::<Seq<char>, Seq<char>>::empty());
            assert(seq![x].last() == x);
            assert(entries_map(seq![x]) == entries_map(seq![x].drop_last()).insert(x.0@, x.1@));
            assert(entries_map(seq![x]) =~= Map::<Seq<char>, Seq<char>>::empty().insert(x.0@, x.1@));
        }
        if crate::text::str_eq(entries[i - 1].0.as_str(), key) {
            proof {
                lemma_entries_map_split(es, i as int);
                assert(es.subrange(0, i as int).last() == x);
            }
            return Some(entries[i - 1].1.clone());
        }
        i = i - 1;
    }
    proof {
        lemma_entries_map_split(es, 0);
        assert(es.subrange(0, 0) =~= Seq::<(String, String)>::empty());
        assert(es.subrange(0, n) =~= es);
    }
    None
}

/// The entries without `key` hold no entry for it, only keys of the
/// original entries, and no key twice when the original held none twice.
proof fn lemma_without_key_keys(es: Seq<(String, String)>, key: Seq<char>)
    ensures
        forall|i: int| 0 <= i < without_key(es, key).len() ==> #[trigger] without_key(es, key)[i].0@ != key,
        forall|i: int|
            0 <= i < without_key(es, key).len() ==> exists|j: int|
                0 <= j < es.len() && #[trigger] es[j].0@ == #[trigger] without_key(es, key)[i].0@,
        distinct_keys(es) ==> distinct_keys(without_key(es, key)),
    decreases es.len(),
{
    if es.len() > 0 {
        let init = es.drop_last();
        lemma_without_key_keys(init, key);
        let w0 = without_key(init, key);
        let w = without_key(es, key);
        assert forall|i: int| 0 <= i < w.len() implies exists|j: int|
            0 <= j < es.len() && #[trigger] es[j].0@ == #[trigger] w[i].0@ by {
            if i < w0.len() {
                assert(w[i] == w0[i]);
                let j = choose|j: int| 0 <= j < init.len() && #[trigger] init[j].0@ == w0[i].0@;
                assert(es[j] == init[j]);
            } else {
                assert(w[i] == es.last());
                assert(es[es.len() - 1].0@ == w[i].0@);
            }
        }
        if distinct_keys(es) {
            assert(distinct_keys(init)) by {
                assert forall|i: int, j: int| 0 <= i < j < init.len() implies #[trigger] init[i].0@
                    != #[trigger] init[j].0@ by {
                    assert(es[i] == init[i] && es[j] == init[j]);
                }
            }
            assert forall|i: int, j: int| 0 <= i < j < w.len() implies #[trigger] w[i].0@ != #[trigger] w[j].0@ by {
                if j < w0.len() {
                    assert(w[i] == w0[i] && w[j] == w0[j]);
                } else {
                    assert(w[i] == w0[i]);
                    assert(w[j] == es.last());
                    let k = choose|k: int| 0 <= k < init.len() && #[trigger] init[k].0@ == w0[i].0@;
                    assert(es[k] == init[k]);
                    assert(es[k].0@ != es[es.len() - 1].0@);
                }
            }
        }
    }
}

/// One change to a store.
pub enum StoreOpV {
    Save(Seq<char>, Seq<char>),
    Delete(Seq<char>),
}

/// What a store holds after the change `op`, from `m`: what `save` and
/// `delete` leave behind, by their contracts.
pub open spec fn apply_op(m: Map<Seq<char>, Seq<char>>, op: StoreOpV) -> Map<Seq<char>, Seq<char>> {
    match op {
        StoreOpV::Save(k, v) => m.insert(k, v),
        StoreOpV::Delete(k) => m.remove(k),
    }
}

/// What a store holds after the changes `ops`, made in order from `m`.
pub open spec fn replay(m: Map<Seq<char>, Seq<char>>, ops: Seq<StoreOpV>) -> Map<Seq<char>, Seq<char>>
    decreases ops.len(),
{
    if ops.len() == 0 {
        m
    } else {
        apply_op(replay(m, ops.drop_last()), ops.last())
    }
}

/// A run of a store: each state is what `save` or `delete` left of the one
/// before. At the end, the store holds the replay of the changes.
pub proof fn law_store_run<S: PersistentStore>(states: Seq<S>, ops: Seq<StoreOpV>)
    requires
        states.len() == ops.len() + 1,
        forall|i: int| 0 <= i < ops.len() ==> #[trigger] states[i + 1].contents() == apply_op(states[i].contents(), ops[i]),
    ensures
        states.last().contents() == replay(states[0].contents(), ops),
    decreases ops.len(),
{
    if ops.len() > 0 {
        let n = ops.len() as int;
        assert forall|i: int| 0 <= i < ops.drop_last().len() implies #[trigger] states.drop_last()[i + 1].contents()
            == apply_op(states.drop_last()[i].contents(), ops.drop_last()[i]) by {
            assert(states[i + 1].contents() == apply_op(states[i].contents(), ops[i]));
        }
        law_store_run(states.drop_last(), ops.drop_last());
        assert(states[n].contents() == apply_op(states[n - 1].contents(), ops[n - 1]));
    }
}

/// The last change to `key` among `ops`: `Some(Some(v))` for a save of `v`,
/// `Some(None)` for a delete, `None` when `key` was not changed.
pub open spec fn last_change(ops: Seq<StoreOpV>, key: Seq<char>) -> Option<Option<Seq<char>>>
    decreases ops.len(),
{
    if ops.len() == 0 {
        None
    } else {
        match ops.last() {
            StoreOpV::Save(k, v) => if k == key {
                Some(Some(v))
            } else {
                last_change(ops.drop_last(), key)
            },
            StoreOpV::Delete(k) => if k == key {
                Some(None)
            } else {
                last_change(ops.drop_last(), key)
            },
        }
    }
}

/// A store reads back, for each key, the last save of it; nothing when its
/// last change was a delete; and what it held at first when it was not
/// changed.
pub proof fn law_store_reads_last_change(m: Map<Seq<char>, Seq<char>>, ops: Seq<StoreOpV>, key: Seq<char>)
    ensures
        match last_change(ops, key) {
            Some(Some(v)) => replay(m, ops).contains_key(key) && replay(m, ops)[key] == v,
            Some(None) => !replay(m, ops).contains_key(key),
            None => replay(m, ops).contains_key(key) == m.contains_key(key) && (m.contains_key(key) ==> replay(
                m,
                ops,
            )[key] == m[key]),
        },
    decreases ops.len(),
{
    if ops.len() > 0 {
        law_store_reads_last_change(m, ops.drop_last(), key);
    }
}

/// The entries as pairs of texts.
pub open spec fn entries_view(es: Seq<(String, String)>) -> Seq<(Seq<char>, Seq<char>)> {
    es.map_values(|e: (String, String)| (e.0@, e.1@))
}

/// Where a [`FilePersistentStore`] writes its entries after each change: the
/// program around the library gives one that writes them to a file.
///
/// A writer that keeps a record of its writes (`keeps_record`) extends
/// `written` by each list of entries handed to it, as [`RecordingWriter`]
/// does. One that keeps the default keeps no record, and `write` then
/// promises nothing of it.
pub trait StoreWriter {
    /// Whether the writer records its writes in `written`.
    open spec fn keeps_record(&self) -> bool {
        false
    }

    /// Every list of entries written so far, oldest first (when the writer
    /// keeps a record).
    open spec fn written(&self) -> Seq<Seq<(Seq<char>, Seq<char>)>> {
        Seq::empty()
    }

    /// Writes out the whole store: each key once, with its value.
    fn write(&mut self, entries: &Vec<(String, String)>)
        ensures
            final(self).keeps_record() == old(self).keeps_record(),
            old(self).keeps_record() ==> final(self).written() == old(self).written().push(entries_view(entries@));
}

/// A writer that keeps every list of entries handed to it, in memory.
pub struct RecordingWriter {
    writes: Vec<Vec<(String, String)>>,
}

impl RecordingWriter {
    /// A writer that has written nothing yet.
    pub fn new() -> (r: Self)
        ensures
            r.keeps_record(),
            r.written() == Seq::<Seq<(Seq<char>, Seq<char>)>>::empty(),
    {
        let r = RecordingWriter { writes: Vec::new() };
        assert(r.writes@.map_values(|w: Vec<(String, String)>| entries_view(w@)) =~= Seq::<
            Seq<(Seq<char>, Seq<char>)>,
        >::empty());
        r
    }

    /// Every list of entries written so far, oldest first.
    pub fn writes(&self) -> (r: &Vec<Vec<(String, String)>>)
        ensures
            r@.map_values(|w: Vec<(String, String)>| entries_view(w@)) == self.written(),
    {
        &self.writes
    }
}

/// A copy of the entries.
fn copy_entries(es: &Vec<(String, String)>) -> (r: Vec<(String, String)>)
    ensures
        entries_view(r@) == entries_view(es@),
{
    let mut out: Vec<(String, String)> = Vec::new();
    let mut i: usize = 0;
    while i < es.len()
        invariant
            i <= es.len(),
            out.len() == i,
            forall|j: int| 0 <= j < i ==> #[trigger] out@[j].0@ == es@[j].0@ && out@[j].1@ == es@[j].1@,
        decreases es.len() - i,
    {
        let k = es[i].0.clone();
        let v = es[i].1.clone();
        out.push((k, v));
        i = i + 1;
    }
    assert(entries_view(out@) =~= entries_view(es@));
    out
}

impl StoreWriter for RecordingWriter {
    open spec fn keeps_record(&self) -> bool {
        true
    }

    closed spec fn written(&self) -> Seq<Seq<(Seq<char>, Seq<char>)>> {
        self.writes@.map_values(|w: Vec<(String, String)>| entries_view(w@))
    }

    fn write(&mut self, entries: &Vec<(String, String)>) {
        let ghost before = self.writes@;
        let copy = copy_entries(entries);
        self.writes.push(copy);
        assert(self.writes@.map_values(|w: Vec<(String, String)>| entries_view(w@)) =~= before.map_values(
            |w: Vec<(String, String)>| entries_view(w@),
        ).push(entries_view(entries@)));
    }
}

/// The map that a list of entries denotes: a later entry for a key hides an
/// earlier one.
pub open spec fn entries_map(es: Seq<(String, String)>) -> Map<Seq<char>, Seq<char>>
    decreases es.len(),
{
    if es.len() == 0 {
        Map::empty()
    } else {
        entries_map(es.drop_last()).insert(es.last().0@, es.last().1@)
    }
}

/// The entries whose key is not `key`, in order.
pub open spec fn without_key(es: Seq<(String, String)>, key: Seq<char>) -> Seq<(String, String)>
    decreases es.len(),
{
    if es.len() == 0 {
        Seq::empty()
    } else if es.last().0@ == key {
        without_key(es.drop_last(), key)
    } else {
        without_key(es.drop_last(), key).push(es.last())
    }
}

proof fn lemma_without_key(es: Seq<(String, String)>, key: Seq<char>)
    ensures
        entries_map(without_key(es, key)) == entries_map(es).remove(key),
    decreases es.len(),
{
    if es.len() > 0 {
        lemma_without_key(es.drop_last(), key);
        let rest = without_key(es.drop_last(), key);
        if es.last().0@ != key {
            assert(rest.push(es.last()).drop_last() =~= rest);
        }
        assert(entries_map(without_key(es, key)) =~= entries_map(es).remove(key));
    } else {
        assert(entries_map(es).remove(key) =~= Map::<Seq<char>, Seq<char>>::empty());
    }
}

// ── The store's file text ───────────────────────────────────────────────────

/// The map that `serde_json::from_str` reads from `text` as a JSON object of
/// strings; none when the text is not one.
pub uninterp spec fn json_map(text: Seq<char>) -> Option<Map<Seq<char>, Seq<char>>>;

/// `serde_json::from_str` into a map of strings: the members of the JSON
/// object `text` holds, each key once; none when `text` is not such an
/// object. The order of the members is left open (the map gives none).
#[verifier::external_body]
fn parse_store_json(text: &str) -> (r: Option<Vec<(String, String)>>)
    ensures
        r is None <==> json_map(text@) is None,
        r matches Some(v) ==> distinct_keys(v@) && entries_map(v@) == json_map(text@)->0,
{
    match serde_json::from_str::<std::collections::HashMap<String, String>>(text) {
        Ok(m) => Some(m.into_iter().collect()),
        Err(_) => None,
    }
}

/// A persistent store kept in memory and written out through its writer
/// after every change, so that what it holds outlives the run.
pub struct FilePersistentStore<W: StoreWriter> {
    entries: Vec<(String, String)>,
    writer: W,
}

impl<W: StoreWriter> FilePersistentStore<W> {
    /// A store holding `entries` (as read back from where an earlier run
    /// wrote them), writing through `writer`.
    pub fn new(entries: Vec<(String, String)>, writer: W) -> (r: Self)
        ensures
            r.contents() == entries_map(entries@),
            r.held_entries() == entries@,
            r.held_writer() == writer,
    {
        FilePersistentStore { entries, writer }
    }

    /// The store kept in a file whose text is `text` (none when there is no
    /// file yet: the store is then empty), writing through `writer`; none
    /// when the text is not a JSON object of strings.
    pub fn from_file_text(text: Option<&str>, writer: W) -> (r: Option<Self>)
        ensures
            match text {
                None => r matches Some(st) && st.contents() == Map::<Seq<char>, Seq<char>>::empty()
                    && st.held_writer() == writer,
                Some(t) => match json_map(t@) {
                    None => r is None,
                    Some(m) => r matches Some(st) && st.contents() == m && st.held_writer() == writer,
                },
            },
    {
        match text {
            None => {
                let st = FilePersistentStore { entries: Vec::new(), writer };
                assert(entries_map(st.entries@) =~= Map::<Seq<char>, Seq<char>>::empty());
                Some(st)
            },
            Some(t) => match parse_store_json(t) {
                Some(entries) => Some(FilePersistentStore { entries, writer }),
                None => None,
            },
        }
    }

    /// The entries as they were last written out.
    pub fn entries(&self) -> (r: &Vec<(String, String)>)
        ensures
            r@ == self.held_entries(),
            entries_map(r@) == self.contents(),
    {
        &self.entries
    }

    /// The writer the store holds.
    pub closed spec fn held_writer(&self) -> W {
        self.writer
    }

    /// The entries the store holds, as last handed to its writer.
    pub closed spec fn held_entries(&self) -> Seq<(String, String)> {
        self.entries@
    }

    /// What the store holds is what its entries denote.
    pub proof fn lemma_contents(&self)
        ensures
            self.contents() == entries_map(self.held_entries()),
    {
    }

    /// Where the store writes its entries.
    pub fn writer(&self) -> (r: &W)
        ensures
            *r == self.held_writer(),
    {
        &self.writer
    }

    /// The entries without `key`.
    fn remove_key(&mut self, key: &str)
        ensures
            final(self).entries@ == without_key(old(self).entries@, key@),
            final(self).writer == old(self).writer,
    {
        self.entries = without_entries(&self.entries, key);
    }
}

impl<W: StoreWriter> PersistentStore for FilePersistentStore<W> {
    closed spec fn contents(&self) -> Map<Seq<char>, Seq<char>> {
        entries_map(self.entries@)
    }

    fn load(&self, key: &str) -> (r: Option<String>) {
        lookup_entries(&self.entries, key)
    }

    /// Binds `key` to `value`, then hands the new entries to the writer.
    fn save(&mut self, key: &str, value: &str)
        ensures
            final(self).held_writer().keeps_record() == old(self).held_writer().keeps_record(),
            old(self).held_writer().keeps_record() ==> final(self).held_writer().written()
                == old(self).held_writer().written().push(entries_view(final(self).held_entries())),
    {
        let ghost before = self.entries@;
        self.remove_key(key);
        proof {
            lemma_without_key(before, key@);
        }
        self.entries.push((key.to_owned(), value.to_owned()));
        assert(self.entries@.drop_last() =~= without_key(before, key@));
        assert(entries_map(self.entries@) =~= entries_map(before).insert(key@, value@));
        self.writer.write(&self.entries);
    }

    /// Unbinds `key`, then hands the new entries to the writer.
    fn delete(&mut self, key: &str)
        ensures
            final(self).held_writer().keeps_record() == old(self).held_writer().keeps_record(),
            old(self).held_writer().keeps_record() ==> final(self).held_writer().written()
                == old(self).held_writer().written().push(entries_view(final(self).held_entries())),
    {
        let ghost before = self.entries@;
        self.remove_key(key);
        proof {
            lemma_without_key(before, key@);
        }
        self.writer.write(&self.entries);
    }
}

/// The entries split at `i`: the later part's bindings take precedence.
proof fn lemma_entries_map_split(es: Seq<(String, String)>, i: int)
    requires
        0 <= i <= es.len(),
    ensures
        entries_map(es) == entries_map(es.subrange(0, i)).union_prefer_right(
            entries_map(es.subrange(i, es.len() as int)),
        ),
    decreases es.len(),
{
    if es.len() == i {
        assert(es.subrange(0, i) =~= es);
        assert(es.subrange(i, es.len() as int) =~= Seq::<(String, String)>::empty());
        assert(entries_map(es).union_prefer_right(Map::empty()) =~= entries_map(es));
    } else {
        lemma_entries_map_split(es.drop_last(), i);
        assert(es.drop_last().subrange(0, i) =~= es.subrange(0, i));
        assert(es.subrange(i, es.len() as int).drop_last() =~= es.drop_last().subrange(i, es.len() - 1));
        assert(es.subrange(i, es.len() as int).last() == es.last());
        assert(entries_map(es) =~= entries_map(es.subrange(0, i)).union_prefer_right(
            entries_map(es.subrange(i, es.len() as int)),
        ));
    }
}

} // verus!
