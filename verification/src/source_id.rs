//! The names of the sources that publishers feed and subscribers listen to.
use crate::access::{
    keys_of_the_standard, list_text, parse_list, standard_entry, written_list_reads_back,
    AccessControlList, EntryView, StandardAccessControlEntry, StandardEntryView,
};
use crate::table::Key;
use vstd::prelude::*;

verus! {

/// Texts put together, with `separator` between each and the next.
pub open spec fn joined(texts: Seq<Seq<char>>, separator: Seq<char>) -> Seq<char>
    decreases texts.len(),
{
    if texts.len() == 0 {
        seq![]
    } else if texts.len() == 1 {
        texts[0]
    } else {
        joined(texts.drop_last(), separator) + separator + texts.last()
    }
}

/// The texts that strings hold.
pub open spec fn texts(strings: Seq<String>) -> Seq<Seq<char>> {
    strings.map_values(|s: String| s@)
}

/// `itertools::join`: the texts one after the other, with `separator` between each and the
/// next. It makes room for all separators at once; for separators of one character that room
/// can be counted, however many strings there are.
#[verifier::external_body]
fn join(strings: &Vec<String>, separator: &str) -> (r: String)
    requires
        separator@.len() <= 1,
    ensures
        r@ == joined(texts(strings@), separator@),
{
    itertools::join(strings, separator)
}

/// The names of the resources that an access control list asks for.
pub open spec fn resource_names(entries: Seq<EntryView>) -> Seq<Seq<char>>
    decreases entries.len(),
{
    if entries.len() == 0 {
        seq![]
    } else {
        let before = resource_names(entries.drop_last());
        match standard_entry(entries.last()) {
            Some(StandardEntryView::ResourceName(name)) => before.push(name),
            _ => before,
        }
    }
}

/// The source that an access control list asks for: the names of its resources, with commas
/// between them. There is none when that is empty.
pub open spec fn source_of_list(entries: Seq<EntryView>) -> Option<Seq<char>> {
    let name = joined(resource_names(entries), seq![',']);
    if name.len() == 0 {
        None
    } else {
        Some(name)
    }
}

/// The source that a stream identifier asks for.
pub open spec fn source_of(stream_id: Seq<char>) -> Option<Seq<char>> {
    match parse_list(stream_id) {
        Some(entries) => source_of_list(entries),
        None => None,
    }
}

/// The source that a request asks for, with or without a stream identifier.
pub open spec fn requested_source(stream_id: Option<&str>) -> Option<Seq<char>> {
    match stream_id {
        Some(stream_id) => source_of(stream_id@),
        None => None,
    }
}

/// The name of a source.
#[derive(Debug, PartialEq, Eq, PartialOrd, Ord)]
pub struct SourceId(String);

impl View for SourceId {
    type V = Seq<char>;

    closed spec fn view(&self) -> Seq<char> {
        self.0@
    }
}

impl Clone for SourceId {
    fn clone(&self) -> (r: SourceId)
        ensures
            r@ == self@,
    {
        SourceId(self.0.clone())
    }
}

impl Key for SourceId {
    fn same(&self, other: &SourceId) -> (r: bool) {
        self.0 == other.0
    }
}

impl SourceId {
    /// The name as a string.
    pub fn deref(&self) -> (r: &String)
        ensures
            r@ == self@,
    {
        &self.0
    }

    /// The source that a request asks for.
    pub fn try_from(stream_id: Option<&str>) -> (r: Result<SourceId, ()>)
        ensures
            match r {
                Ok(source_id) => requested_source(stream_id) == Some(source_id@),
                Err(()) => requested_source(stream_id) is None,
            },
    {
        match stream_id {
            Some(stream_id) => SourceId::from_str(stream_id),
            None => Err(()),
        }
    }

    /// The source that a stream identifier asks for.
    pub fn from_str(stream_id: &str) -> (r: Result<SourceId, ()>)
        ensures
            match r {
                Ok(source_id) => source_of(stream_id@) == Some(source_id@),
                Err(()) => source_of(stream_id@) is None,
            },
    {
        match AccessControlList::from_str(stream_id) {
            Ok(list) => SourceId::from_list(&list),
            Err(()) => Err(()),
        }
    }

    /// The source that an access control list asks for.
    pub fn from_list(list: &AccessControlList) -> (r: Result<SourceId, ()>)
        ensures
            match r {
                Ok(source_id) => source_of_list(list@) == Some(source_id@),
                Err(()) => source_of_list(list@) is None,
            },
    {
        let mut names: Vec<String> = Vec::new();
        let mut i: usize = 0;
        assert(texts(names@) =~= resource_names(list@.take(0)));
        while i < list.0.len()
            invariant
                i <= list@.len(),
                list@.len() == list.0@.len(),
                texts(names@) == resource_names(list@.take(i as int)),
            decreases list.0.len() - i,
        {
            proof {
                let next = list@.take(i + 1);
                assert(next.drop_last() =~= list@.take(i as int));
                assert(next.last() == list.0@[i as int]@);
            }
            let ghost before = texts(names@);
            match list.0[i].to_standard() {
                Some(StandardAccessControlEntry::ResourceName(name)) => {
                    names.push(name);
                    assert(texts(names@) =~= before.push(name@));
                },
                _ => {},
            }
            i = i + 1;
        }
        assert(list@.take(i as int) =~= list@);
        proof {
            reveal_strlit(",");
            assert(","@ =~= seq![',']);
        }
        let name = join(&names, ",");
        SourceId::from_name(name)
    }

    /// The source with the given name, which is not empty.
    pub fn from_name(name: String) -> (r: Result<SourceId, ()>)
        ensures
            match r {
                Ok(source_id) => name@.len() > 0 && source_id@ == name@,
                Err(()) => name@.len() == 0,
            },
    {
        if name.as_str().is_empty() {
            Err(())
        } else {
            Ok(SourceId(name))
        }
    }
}

/// Asking for one resource by name asks for the source of that name.
pub proof fn resource_request_names_its_source(name: Seq<char>)
    requires
        name.len() > 0,
        !name.contains(','),
    ensures
        source_of(list_text(seq![EntryView { key: seq!['r'], value: name }])) == Some(name),
{
    let entry = EntryView { key: seq!['r'], value: name };
    let entries = seq![entry];
    assert(!entry.key.contains('=') && !entry.key.contains(','));
    written_list_reads_back(entries);
    assert(seq!['r'][0] != seq!['u'][0]);
    assert(standard_entry(entry) == Some(StandardEntryView::ResourceName(name)));
    assert(entries.drop_last() =~= seq![]);
    assert(resource_names(entries.drop_last()) =~= seq![]);
    assert(resource_names(entries) =~= seq![name]);
}

/// Texts are put together one after the other, with the separator between them.
pub proof fn texts_are_joined_in_order(texts: Seq<Seq<char>>, text: Seq<char>, separator: Seq<char>)
    ensures
        joined(Seq::<Seq<char>>::empty(), separator) == Seq::<char>::empty(),
        joined(seq![text], separator) == text,
        texts.len() > 0 ==> joined(texts.push(text), separator) == joined(texts, separator)
            + separator + text,
{
    if texts.len() > 0 {
        assert(texts.push(text).drop_last() =~= texts);
    }
}

/// The resource names of two lists, one behind the other.
proof fn lemma_resource_names(a: Seq<EntryView>, b: Seq<EntryView>)
    ensures
        resource_names(a + b) == resource_names(a) + resource_names(b),
    decreases b.len(),
{
    if b.len() == 0 {
        assert(a + b =~= a);
        assert(resource_names(a) + resource_names(b) =~= resource_names(a));
    } else {
        assert((a + b).drop_last() =~= a + b.drop_last());
        lemma_resource_names(a, b.drop_last());
        assert(resource_names(a + b) =~= resource_names(a) + resource_names(b));
    }
}

proof fn lemma_resource_name(entry: EntryView)
    ensures
        resource_names(seq![entry]) == if entry.key == seq!['r'] {
            seq![entry.value]
        } else {
            Seq::<Seq<char>>::empty()
        },
{
    keys_of_the_standard(entry);
    assert(seq!['r'][0] != seq!['u'][0]);
    assert(seq![entry].drop_last() =~= Seq::<EntryView>::empty());
    assert(resource_names(Seq::<EntryView>::empty()) =~= Seq::<Seq<char>>::empty());
    assert(resource_names(seq![entry]) =~= if entry.key == seq!['r'] {
        seq![entry.value]
    } else {
        Seq::<Seq<char>>::empty()
    });
}

/// An entry that is no resource, put into a list at any place, leaves the source that the list
/// asks for unchanged.
pub proof fn other_entries_do_not_matter(entries: Seq<EntryView>, i: int, entry: EntryView)
    requires
        0 <= i <= entries.len(),
        entry.key != seq!['r'],
    ensures
        source_of_list(entries.insert(i, entry)) == source_of_list(entries),
{
    let before = entries.take(i);
    let behind = entries.skip(i);
    assert(entries =~= before + behind);
    assert(entries.insert(i, entry) =~= before + (seq![entry] + behind));
    lemma_resource_names(before, behind);
    lemma_resource_names(seq![entry], behind);
    lemma_resource_names(before, seq![entry] + behind);
    lemma_resource_name(entry);
    assert(resource_names(entries.insert(i, entry)) =~= resource_names(entries));
}

/// A list without resources asks for no source.
pub proof fn list_without_resources_asks_for_no_source(entries: Seq<EntryView>)
    requires
        forall|i: int| 0 <= i < entries.len() ==> (#[trigger] entries[i]).key != seq!['r'],
    ensures
        source_of_list(entries) is None,
        resource_names(entries).len() == 0,
    decreases entries.len(),
{
    if entries.len() > 0 {
        let shorter = entries.drop_last();
        assert forall|i: int| 0 <= i < shorter.len() implies (#[trigger] shorter[i]).key
            != seq!['r'] by {
            assert(shorter[i] == entries[i]);
        }
        list_without_resources_asks_for_no_source(shorter);
        assert(entries[entries.len() - 1].key != seq!['r']);
        keys_of_the_standard(entries.last());
    }
}

/// A list with one resource asks for the source of that name, wherever the resource stands,
/// and for none when the name is empty.
pub proof fn one_resource_names_the_source(entries: Seq<EntryView>, i: int)
    requires
        0 <= i < entries.len(),
        entries[i].key == seq!['r'],
        forall|j: int|
            0 <= j < entries.len() && j != i ==> (#[trigger] entries[j]).key != seq!['r'],
    ensures
        entries[i].value.len() > 0 ==> source_of_list(entries) == Some(entries[i].value),
        entries[i].value.len() == 0 ==> source_of_list(entries) is None,
        resource_names(entries) == seq![entries[i].value],
{
    let before = entries.take(i);
    let behind = entries.skip(i + 1);
    assert forall|j: int| 0 <= j < before.len() implies (#[trigger] before[j]).key
        != seq!['r'] by {
        assert(before[j] == entries[j]);
    }
    assert forall|j: int| 0 <= j < behind.len() implies (#[trigger] behind[j]).key
        != seq!['r'] by {
        assert(behind[j] == entries[i + 1 + j]);
    }
    list_without_resources_asks_for_no_source(before);
    list_without_resources_asks_for_no_source(behind);
    assert(entries =~= before + (seq![entries[i]] + behind));
    lemma_resource_names(before, seq![entries[i]] + behind);
    lemma_resource_names(seq![entries[i]], behind);
    lemma_resource_name(entries[i]);
    assert(resource_names(entries) =~= seq![entries[i].value]);
}

/// A resource that is put behind a list adds its name to the source that the list asks for,
/// after a comma.
pub proof fn resources_are_named_one_after_the_other(entries: Seq<EntryView>, name: Seq<char>)
    requires
        exists|i: int| 0 <= i < entries.len() && (#[trigger] entries[i]).key == seq!['r'],
    ensures
        ({
            let longer = entries.push(EntryView { key: seq!['r'], value: name });
            source_of_list(longer) == Some(
                match source_of_list(entries) {
                    Some(source) => source + seq![','] + name,
                    None => seq![','] + name,
                },
            )
        }),
{
    let entry = EntryView { key: seq!['r'], value: name };
    let i = choose|i: int| 0 <= i < entries.len() && (#[trigger] entries[i]).key == seq!['r'];
    let names = resource_names(entries);
    assert(entries.push(entry) =~= entries + seq![entry]);
    lemma_resource_names(entries, seq![entry]);
    lemma_resource_name(entry);
    assert(names.len() > 0) by {
        assert(entries =~= entries.take(i) + (seq![entries[i]] + entries.skip(i + 1)));
        lemma_resource_names(entries.take(i), seq![entries[i]] + entries.skip(i + 1));
        lemma_resource_names(seq![entries[i]], entries.skip(i + 1));
        lemma_resource_name(entries[i]);
    }
    assert(names + seq![name] =~= names.push(name));
    texts_are_joined_in_order(names, name, seq![',']);
    if source_of_list(entries) is None {
        assert(joined(names, seq![',']) =~= Seq::<char>::empty());
        assert(Seq::<char>::empty() + seq![','] + name =~= seq![','] + name);
    }
}

/// A stream identifier asks for the source that its list asks for, and for none if it is no
/// list; a request without a stream identifier asks for none.
pub proof fn source_is_that_of_the_list(stream_id: &str)
    ensures
        parse_list(stream_id@) matches Some(entries) ==> source_of(stream_id@) == source_of_list(
            entries,
        ),
        parse_list(stream_id@) is None ==> source_of(stream_id@) is None,
        requested_source(Some(stream_id)) == source_of(stream_id@),
        requested_source(None) is None,
{
}

} // verus!
