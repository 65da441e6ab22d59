//! Access control lists: what a caller asks for, written in the stream identifier of its
//! connection request.
use vstd::prelude::*;
use vstd::string::*;

verus! {

/// Where `c` stands first in `text`: at its length if nowhere.
pub open spec fn position(text: Seq<char>, c: char) -> int
    decreases text.len(),
{
    if text.len() == 0 || text[0] == c {
        0
    } else {
        1 + position(text.skip(1), c)
    }
}

/// What `position` is.
pub proof fn lemma_position(text: Seq<char>, c: char)
    ensures
        0 <= position(text, c) <= text.len(),
        forall|i: int| 0 <= i < position(text, c) ==> #[trigger] text[i] != c,
        position(text, c) < text.len() ==> text[position(text, c)] == c,
    decreases text.len(),
{
    if text.len() > 0 && text[0] != c {
        lemma_position(text.skip(1), c);
        assert forall|i: int| 0 <= i < position(text, c) implies #[trigger] text[i] != c by {
            if i > 0 {
                assert(text.skip(1)[i - 1] == text[i]);
            }
        }
    }
}

/// `position` is where `c` stands first.
pub proof fn lemma_position_is(text: Seq<char>, c: char, at: int)
    requires
        0 <= at <= text.len(),
        forall|i: int| 0 <= i < at ==> #[trigger] text[i] != c,
        at < text.len() ==> text[at] == c,
    ensures
        position(text, c) == at,
{
    lemma_position(text, c);
    let found = position(text, c);
    if found < at {
        assert(text[found] != c);
    }
}

/// What an access control entry holds.
pub struct EntryView {
    pub key: Seq<char>,
    pub value: Seq<char>,
}

/// The text that every access control list starts with.
pub open spec fn list_prefix() -> Seq<char> {
    seq!['#', '!', ':', ':']
}

/// The entry that `text` stands for: what stands before its first equals sign, and what
/// stands after it.
pub open spec fn parse_entry(text: Seq<char>) -> Option<EntryView> {
    let at = position(text, '=');
    if at < text.len() {
        Some(EntryView { key: text.take(at), value: text.skip(at + 1) })
    } else {
        None
    }
}

/// The entries in `text`, which commas separate. What is no entry is passed over.
pub open spec fn parse_entries(text: Seq<char>) -> Seq<EntryView>
    decreases text.len(),
{
    let end = position(text, ',');
    let head = match parse_entry(text.take(end)) {
        Some(entry) => seq![entry],
        None => seq![],
    };
    if 0 <= end < text.len() {
        head + parse_entries(text.skip(end + 1))
    } else {
        head
    }
}

/// The access control list that a stream identifier stands for, if it is one.
pub open spec fn parse_list(stream_id: Seq<char>) -> Option<Seq<EntryView>> {
    if list_prefix().is_prefix_of(stream_id) {
        Some(parse_entries(stream_id.skip(4)))
    } else {
        None
    }
}

/// How an entry is written.
pub open spec fn entry_text(entry: EntryView) -> Seq<char> {
    entry.key + seq!['='] + entry.value
}

/// How entries are written.
pub open spec fn entries_text(entries: Seq<EntryView>) -> Seq<char>
    decreases entries.len(),
{
    if entries.len() == 0 {
        seq![]
    } else if entries.len() == 1 {
        entry_text(entries[0])
    } else {
        entries_text(entries.drop_last()) + seq![','] + entry_text(entries.last())
    }
}

/// How an access control list is written.
pub open spec fn list_text(entries: Seq<EntryView>) -> Seq<char> {
    list_prefix() + entries_text(entries)
}

/// Whether an entry reads back as it was written: its key holds no comma and no equals
/// sign, and its value no comma.
pub open spec fn is_plain(entry: EntryView) -> bool {
    !entry.key.contains('=') && !entry.key.contains(',') && !entry.value.contains(',')
}

/// An entry of an access control list.
#[derive(Debug, PartialEq, Eq)]
pub struct AccessControlEntry {
    pub key: String,
    pub value: String,
}

impl View for AccessControlEntry {
    type V = EntryView;

    open spec fn view(&self) -> EntryView {
        EntryView { key: self.key@, value: self.value@ }
    }
}

/// What entries with a key of the standard say.
#[derive(Debug, PartialEq, Eq)]
pub enum StandardAccessControlEntry {
    /// The user who calls.
    UserName(String),
    /// The resource that is asked for.
    ResourceName(String),
}

/// What entries with a key of the standard say, as text.
pub enum StandardEntryView {
    UserName(Seq<char>),
    ResourceName(Seq<char>),
}

impl View for StandardAccessControlEntry {
    type V = StandardEntryView;

    open spec fn view(&self) -> StandardEntryView {
        match self {
            StandardAccessControlEntry::UserName(name) => StandardEntryView::UserName(name@),
            StandardAccessControlEntry::ResourceName(name) => StandardEntryView::ResourceName(
                name@,
            ),
        }
    }
}

/// What an entry says, if its key is one of the standard.
pub open spec fn standard_entry(entry: EntryView) -> Option<StandardEntryView> {
    if entry.key == seq!['u'] {
        Some(StandardEntryView::UserName(entry.value))
    } else if entry.key == seq!['r'] {
        Some(StandardEntryView::ResourceName(entry.value))
    } else {
        None
    }
}

/// Whether `text` is the one character `c`.
fn is_char(text: &str, c: char) -> (r: bool)
    ensures
        r == (text@ == seq![c]),
{
    let r = text.unicode_len() == 1 && text.get_char(0) == c;
    assert(r ==> text@ =~= seq![c]);
    r
}

impl AccessControlEntry {
    /// What this entry says, if its key is one of the standard.
    pub fn to_standard(&self) -> (r: Option<StandardAccessControlEntry>)
        ensures
            match r {
                Some(entry) => standard_entry(self@) == Some(entry@),
                None => standard_entry(self@) is None,
            },
    {
        if is_char(self.key.as_str(), 'u') {
            Some(StandardAccessControlEntry::UserName(self.value.clone()))
        } else if is_char(self.key.as_str(), 'r') {
            Some(StandardAccessControlEntry::ResourceName(self.value.clone()))
        } else {
            None
        }
    }

    /// The entry that says `entry`.
    pub fn from_standard(entry: StandardAccessControlEntry) -> (r: AccessControlEntry)
        ensures
            standard_entry(r@) == Some(entry@),
    {
        proof {
            reveal_strlit("u");
            reveal_strlit("r");
            assert("u"@ =~= seq!['u']);
            assert("r"@ =~= seq!['r']);
            assert(seq!['r'][0] != seq!['u'][0]);
        }
        match entry {
            StandardAccessControlEntry::UserName(value) => AccessControlEntry {
                key: "u".to_owned(),
                value,
            },
            StandardAccessControlEntry::ResourceName(value) => AccessControlEntry {
                key: "r".to_owned(),
                value,
            },
        }
    }
}

/// What a caller asks for.
#[derive(Debug, PartialEq, Eq)]
pub struct AccessControlList(pub Vec<AccessControlEntry>);

impl View for AccessControlList {
    type V = Seq<EntryView>;

    open spec fn view(&self) -> Seq<EntryView> {
        self.0@.map_values(|entry: AccessControlEntry| entry@)
    }
}

/// The characters of `text`.
fn characters(text: &str) -> (r: Vec<char>)
    ensures
        r@ == text@,
{
    let mut r: Vec<char> = Vec::new();
    for c in characters: text.chars()
        invariant
            r@ == text@.take(characters.index()),
            characters.seq() == text@,
    {
        r.push(c);
    }
    r
}

/// Where `c` stands first from `start` on and before `end`: at `end` if nowhere.
fn find(text: &Vec<char>, c: char, start: usize, end: usize) -> (r: usize)
    requires
        start <= end <= text@.len(),
    ensures
        start <= r <= end,
        r - start == position(text@.subrange(start as int, end as int), c),
{
    let ghost part = text@.subrange(start as int, end as int);
    let mut i: usize = start;
    while i < end && text[i] != c
        invariant
            start <= i <= end <= text@.len(),
            part == text@.subrange(start as int, end as int),
            forall|j: int| 0 <= j < i - start ==> #[trigger] part[j] != c,
        decreases end - i,
    {
        assert(part[i - start] == text@[i as int]);
        i = i + 1;
    }
    proof {
        if i < end {
            assert(part[i - start] == text@[i as int]);
        }
        lemma_position_is(part, c, i - start);
    }
    i
}

impl AccessControlList {
    /// The access control list that a stream identifier stands for.
    pub fn from_str(stream_id: &str) -> (r: Result<AccessControlList, ()>)
        ensures
            match r {
                Ok(list) => parse_list(stream_id@) == Some(list@),
                Err(()) => parse_list(stream_id@) is None,
            },
    {
        let text = characters(stream_id);
        let ghost whole = stream_id@;
        if text.len() < 4 || text[0] != '#' || text[1] != '!' || text[2] != ':' || text[3] != ':' {
            proof {
                if list_prefix().is_prefix_of(whole) {
                    assert(whole.subrange(0, 4) == list_prefix());
                    assert(whole[0] == list_prefix()[0]);
                    assert(whole[1] == list_prefix()[1]);
                    assert(whole[2] == list_prefix()[2]);
                    assert(whole[3] == list_prefix()[3]);
                }
            }
            return Err(());
        }
        assert(list_prefix() =~= whole.subrange(0, 4));
        let mut list = AccessControlList(Vec::new());
        let mut start: usize = 4;
        assert(list@ + parse_entries(whole.skip(4)) =~= parse_entries(whole.skip(4)));
        loop
            invariant_except_break
                list@ + parse_entries(whole.skip(start as int)) == parse_entries(whole.skip(4)),
            invariant
                text@ == whole,
                whole == stream_id@,
                4 <= start <= whole.len(),
            ensures
                list@ == parse_entries(whole.skip(4)),
            decreases whole.len() - start,
        {
            let ghost rest = whole.skip(start as int);
            let ghost before = list@;
            let end: usize = find(&text, ',', start, text.len());
            let at: usize = find(&text, '=', start, end);
            proof {
                assert(text@.subrange(start as int, text@.len() as int) =~= rest);
                assert(text@.subrange(start as int, end as int) =~= rest.take(end - start));
            }
            if at < end {
                let entry = AccessControlEntry {
                    key: stream_id.substring_char(start, at).to_owned(),
                    value: stream_id.substring_char(at + 1, end).to_owned(),
                };
                proof {
                    assert(entry.key@ =~= rest.take(end - start).take(at - start));
                    assert(entry.value@ =~= rest.take(end - start).skip(at - start + 1));
                }
                list.0.push(entry);
                assert(list@ =~= before.push(entry@));
            }
            if end == text.len() {
                assert(list@ =~= before + parse_entries(rest));
                break ;
            }
            proof {
                assert(rest.skip(end - start + 1) =~= whole.skip(end + 1));
                assert(list@ + parse_entries(whole.skip(end + 1)) =~= before + parse_entries(rest));
            }
            start = end + 1;
        }
        Ok(list)
    }

    /// The stream identifier that stands for this list.
    pub fn to_stream_id(&self) -> (r: String)
        ensures
            r@ == list_text(self@),
    {
        proof {
            reveal_strlit("#!::");
            reveal_strlit("=");
            reveal_strlit(",");
        }
        let mut text = "#!::".to_owned();
        assert(text@ =~= list_prefix() + entries_text(self@.take(0)));
        let mut i: usize = 0;
        while i < self.0.len()
            invariant
                "="@ == seq!['='],
                ","@ == seq![','],
                i <= self@.len(),
                self@.len() == self.0@.len(),
                text@ == list_prefix() + entries_text(self@.take(i as int)),
            decreases self.0.len() - i,
        {
            let entry = &self.0[i];
            let ghost before = text@;
            let ghost done = self@.take(i as int);
            if i > 0 {
                text.append(",");
            }
            text.append(entry.key.as_str());
            text.append("=");
            text.append(entry.value.as_str());
            i = i + 1;
            proof {
                let next = self@.take(i as int);
                assert(next.drop_last() =~= done);
                assert(next.last() == entry@);
                if i == 1 {
                    assert(next[0] == entry@);
                }
                assert(text@ =~= list_prefix() + entries_text(next));
            }
        }
        assert(self@.take(i as int) =~= self@);
        text
    }
}

/// A written entry reads back.
proof fn lemma_entry_reads_back(entry: EntryView)
    requires
        is_plain(entry),
    ensures
        parse_entry(entry_text(entry)) == Some(entry),
        !entry_text(entry).contains(','),
{
    let text = entry_text(entry);
    let at = entry.key.len() as int;
    assert forall|i: int| 0 <= i < at implies #[trigger] text[i] != '=' by {
        assert(text[i] == entry.key[i]);
        assert(entry.key.contains(entry.key[i]));
    }
    lemma_position_is(text, '=', at);
    assert(text.take(at) =~= entry.key);
    assert(text.skip(at + 1) =~= entry.value);
    assert forall|i: int| 0 <= i < text.len() implies #[trigger] text[i] != ',' by {
        if i < at {
            assert(entry.key.contains(entry.key[i]));
        } else if i > at {
            assert(text[i] == entry.value[i - at - 1]);
            assert(entry.value.contains(entry.value[i - at - 1]));
        }
    }
}

/// Reading what stands before a last comma, and what stands after it.
proof fn lemma_parse_appended(text: Seq<char>, last: Seq<char>)
    requires
        !last.contains(','),
    ensures
        parse_entries(text + seq![','] + last) == parse_entries(text) + parse_entries(last),
    decreases text.len(),
{
    let whole = text + seq![','] + last;
    lemma_position(text, ',');
    let end = position(text, ',');
    assert forall|i: int| 0 <= i < end implies #[trigger] whole[i] != ',' by {
        assert(whole[i] == text[i]);
    }
    lemma_position_is(whole, ',', end);
    assert(whole.take(end) =~= text.take(end));
    if end < text.len() {
        let rest = text.skip(end + 1);
        assert(whole.skip(end + 1) =~= rest + seq![','] + last);
        lemma_parse_appended(rest, last);
    } else {
        assert(whole.skip(end + 1) =~= last);
    }
    assert(parse_entries(whole) =~= parse_entries(text) + parse_entries(last));
}

/// Reading a text without commas.
proof fn lemma_parse_single(text: Seq<char>)
    requires
        !text.contains(','),
    ensures
        parse_entries(text) == match parse_entry(text) {
            Some(entry) => seq![entry],
            None => seq![],
        },
{
    assert forall|i: int| 0 <= i < text.len() implies #[trigger] text[i] != ',' by {
        assert(text.contains(text[i]));
    }
    lemma_position_is(text, ',', text.len() as int);
    assert(text.take(text.len() as int) =~= text);
}

/// Written entries read back.
proof fn lemma_entries_read_back(entries: Seq<EntryView>)
    requires
        forall|i: int| 0 <= i < entries.len() ==> is_plain(#[trigger] entries[i]),
    ensures
        parse_entries(entries_text(entries)) == entries,
    decreases entries.len(),
{
    if entries.len() == 0 {
        lemma_parse_single(entries_text(entries));
        assert(entries =~= seq![]);
    } else {
        let last = entries.last();
        lemma_entry_reads_back(last);
        lemma_parse_single(entry_text(last));
        if entries.len() == 1 {
            assert(entries =~= seq![last]);
        } else {
            let before = entries.drop_last();
            lemma_entries_read_back(before);
            lemma_parse_appended(entries_text(before), entry_text(last));
            assert(before + seq![last] =~= entries);
        }
    }
}

/// A stream identifier reads back as the access control list that it was written for, as
/// long as no key holds a comma or an equals sign, and no value a comma.
pub proof fn written_list_reads_back(entries: Seq<EntryView>)
    requires
        forall|i: int| 0 <= i < entries.len() ==> is_plain(#[trigger] entries[i]),
    ensures
        parse_list(list_text(entries)) == Some(entries),
{
    lemma_entries_read_back(entries);
    let text = list_text(entries);
    assert(text.subrange(0, 4) =~= list_prefix());
    assert(text.skip(4) =~= entries_text(entries));
}

/// The view of an entry and of a list hold what they hold.
pub proof fn list_is_seen_as_it_is(list: AccessControlList)
    ensures
        list@.len() == list.0@.len(),
        forall|i: int|
            0 <= i < list.0@.len() ==> (#[trigger] list@[i]).key == list.0@[i].key@
                && list@[i].value == list.0@[i].value@,
{
}

/// A stream identifier is an access control list exactly when it starts with a hash, an
/// exclamation mark and two colons.
pub proof fn list_starts_with_its_mark(text: Seq<char>)
    ensures
        parse_list(text) is Some <==> text.len() >= 4 && text[0] == '#' && text[1] == '!'
            && text[2] == ':' && text[3] == ':',
{
    let mark = seq!['#', '!', ':', ':'];
    if list_prefix().is_prefix_of(text) {
        assert(text.subrange(0, 4) == list_prefix());
        assert(text.subrange(0, 4)[0] == mark[0] && text.subrange(0, 4)[1] == mark[1]);
        assert(text.subrange(0, 4)[2] == mark[2] && text.subrange(0, 4)[3] == mark[3]);
    }
    if text.len() >= 4 && text[0] == '#' && text[1] == '!' && text[2] == ':' && text[3] == ':' {
        assert(text.subrange(0, 4) =~= list_prefix());
    }
}

/// What stands behind the mark is read as one entry, when it is a key, an equals sign and a
/// value, and as none when it holds no equals sign.
pub proof fn single_entry_is_read(key: Seq<char>, value: Seq<char>)
    requires
        !key.contains('='),
        !key.contains(','),
        !value.contains(','),
    ensures
        parse_list(seq!['#', '!', ':', ':'] + key + seq!['='] + value) == Some(
            seq![EntryView { key, value }],
        ),
        parse_list(seq!['#', '!', ':', ':'] + key) == Some(Seq::<EntryView>::empty()),
{
    let mark = seq!['#', '!', ':', ':'];
    let entry = EntryView { key, value };
    lemma_entry_reads_back(entry);
    lemma_parse_single(entry_text(entry));
    let text = mark + key + seq!['='] + value;
    list_starts_with_its_mark(text);
    assert(text.skip(4) =~= entry_text(entry));
    assert(parse_entries(text.skip(4)) =~= seq![entry]);
    list_starts_with_its_mark(mark + key);
    assert((mark + key).skip(4) =~= key);
    lemma_no_entry(key);
}

/// A text without commas and equals signs is no entry.
proof fn lemma_no_entry(text: Seq<char>)
    requires
        !text.contains('='),
        !text.contains(','),
    ensures
        parse_entries(text) == Seq::<EntryView>::empty(),
{
    lemma_parse_single(text);
    assert forall|i: int| 0 <= i < text.len() implies #[trigger] text[i] != '=' by {
        assert(text.contains(text[i]));
    }
    lemma_position_is(text, '=', text.len() as int);
    assert(parse_entries(text) =~= Seq::<EntryView>::empty());
}

/// A comma, a key, an equals sign and a value that are put behind a list add one entry to it,
/// whatever the list holds. A comma and a text without an equals sign add none.
pub proof fn entries_are_read_one_after_the_other(
    text: Seq<char>,
    key: Seq<char>,
    value: Seq<char>,
)
    requires
        parse_list(text) is Some,
        !key.contains('='),
        !key.contains(','),
        !value.contains(','),
    ensures
        parse_list(text + seq![','] + key + seq!['='] + value) == Some(
            (parse_list(text)->0).push(EntryView { key, value }),
        ),
        parse_list(text + seq![','] + key) == parse_list(text),
{
    let entry = EntryView { key, value };
    let rest = text.skip(4);
    let with_entry = text + seq![','] + key + seq!['='] + value;
    let without = text + seq![','] + key;
    list_starts_with_its_mark(text);
    list_starts_with_its_mark(with_entry);
    list_starts_with_its_mark(without);
    lemma_entry_reads_back(entry);
    lemma_parse_single(entry_text(entry));
    lemma_parse_appended(rest, entry_text(entry));
    assert(with_entry.skip(4) =~= rest + seq![','] + entry_text(entry));
    assert(parse_entries(rest) + seq![entry] =~= parse_entries(rest).push(entry));
    lemma_no_entry(key);
    lemma_parse_appended(rest, key);
    assert(without.skip(4) =~= rest + seq![','] + key);
    assert(parse_entries(rest) + Seq::<EntryView>::empty() =~= parse_entries(rest));
}

/// A list is written as its mark and its entries, each as its key, an equals sign and its
/// value, with commas between them.
pub proof fn entries_are_written_one_after_the_other(entries: Seq<EntryView>, entry: EntryView)
    ensures
        list_text(Seq::<EntryView>::empty()) == seq!['#', '!', ':', ':'],
        list_text(seq![entry]) == seq!['#', '!', ':', ':'] + entry.key + seq!['='] + entry.value,
        entries.len() > 0 ==> list_text(entries.push(entry)) == list_text(entries) + seq![',']
            + entry.key + seq!['='] + entry.value,
{
    assert(list_text(Seq::<EntryView>::empty()) =~= seq!['#', '!', ':', ':']);
    assert(list_text(seq![entry]) =~= seq!['#', '!', ':', ':'] + entry.key + seq!['=']
        + entry.value);
    if entries.len() > 0 {
        assert(entries.push(entry).drop_last() =~= entries);
        assert(list_text(entries.push(entry)) =~= list_text(entries) + seq![','] + entry.key
            + seq!['='] + entry.value);
    }
}

/// The key `u` stands for a user and the key `r` for a resource, and no other key for either.
pub proof fn keys_of_the_standard(entry: EntryView)
    ensures
        entry.key == seq!['u'] ==> standard_entry(entry) == Some(
            StandardEntryView::UserName(entry.value),
        ),
        entry.key == seq!['r'] ==> standard_entry(entry) == Some(
            StandardEntryView::ResourceName(entry.value),
        ),
        standard_entry(entry) is Some ==> entry.key == seq!['u'] || entry.key == seq!['r'],
{
    assert(seq!['r'][0] != seq!['u'][0]);
}

} // verus!
