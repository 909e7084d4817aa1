//! The active-set registry records: the per-world, per-kind list of active
//! packs, with pure lookup, insert-or-replace and remove operations. The
//! list is kept as a sequence (append on insert, filter on remove); that at
//! most one record exists per pack identifier is the registry invariant.
use super::version::{
    dec_str, digit_char, lemma_compare_antisymmetric, push_char, spec_canonical, spec_compare,
    AddonVersion, VersionOrdering, VersionView,
};
use vstd::prelude::*;

verus! {

/// One active-pack record: a pack identifier and its active version.
pub struct InUse {
    pub pack_id: String,
    pub version: AddonVersion,
}

/// Model of a record: the identifier characters and the version value.
#[verifier::ext_equal]
pub ghost struct InUseView {
    pub pack_id: Seq<char>,
    pub version: VersionView,
}

impl View for InUse {
    type V = InUseView;

    open spec fn view(&self) -> InUseView {
        InUseView { pack_id: self.pack_id@, version: self.version@ }
    }
}

impl DeepView for InUse {
    type V = InUseView;

    open spec fn deep_view(&self) -> InUseView {
        self.view()
    }
}

impl InUse {
    /// An exact copy of the record.
    pub fn duplicate(&self) -> (r: InUse)
        ensures
            r@ == self@,
    {
        InUse { pack_id: self.pack_id.clone(), version: self.version.duplicate() }
    }

    /// Value equality: identifier and version both match.
    pub fn same_as(&self, other: &InUse) -> (r: bool)
        ensures
            r == (self@ == other@),
    {
        proof {
            lemma_compare_antisymmetric(self.version@, other.version@);
        }
        if !(self.pack_id == other.pack_id) {
            return false;
        }
        if self.version.compare(&other.version) == VersionOrdering::Equal {
            proof {
                assert(self@ =~~= other@);
            }
            true
        } else {
            false
        }
    }
}

/// One record of the server's pack-history file.
pub struct History {
    pub can_be_redownloaded: bool,
    pub name: String,
    pub uuin: String,
    pub version: AddonVersion,
}

/// The server's pack-history file: a list of history records.
pub struct HistoryList {
    pub packs: Vec<History>,
}

// ---------------------------------------------------------------------------
// Lookup
// ---------------------------------------------------------------------------
/// The first record with the given identifier, if any.
pub open spec fn spec_find(entries: Seq<InUseView>, pack_id: Seq<char>) -> Option<InUseView>
    decreases entries.len(),
{
    if entries.len() == 0 {
        None
    } else if entries[0].pack_id == pack_id {
        Some(entries[0])
    } else {
        spec_find(entries.skip(1), pack_id)
    }
}

fn find_from(entries: &Vec<InUse>, pack_id: &String, i: usize) -> (r: Option<usize>)
    requires
        i <= entries.len(),
    ensures
        match r {
            Some(k) => i <= k < entries.len() && spec_find(
                entries.deep_view().skip(i as int),
                pack_id@,
            ) == Some(entries.deep_view()[k as int]),
            None => spec_find(entries.deep_view().skip(i as int), pack_id@) is None,
        },
    decreases entries.len() - i,
{
    if i == entries.len() {
        proof {
            assert(entries.deep_view().skip(i as int) =~= Seq::<InUseView>::empty());
        }
        None
    } else {
        proof {
            assert(entries.deep_view().skip(i as int)[0] == entries.deep_view()[i as int]);
            assert(entries.deep_view().skip(i as int).skip(1) =~= entries.deep_view().skip(i + 1));
            assert(entries.deep_view()[i as int] == entries@[i as int]@);
        }
        if entries[i].pack_id == *pack_id {
            Some(i)
        } else {
            find_from(entries, pack_id, i + 1)
        }
    }
}

/// The first record for `pack_id`, or `None` when none is registered.
pub fn find<'a>(entries: &'a Vec<InUse>, pack_id: &String) -> (r: Option<&'a InUse>)
    ensures
        match r {
            Some(e) => spec_find(entries.deep_view(), pack_id@) == Some(e@),
            None => spec_find(entries.deep_view(), pack_id@) is None,
        },
{
    proof {
        assert(entries.deep_view().skip(0) =~= entries.deep_view());
    }
    match find_from(entries, pack_id, 0) {
        Some(k) => {
            proof {
                assert(entries.deep_view()[k as int] == entries@[k as int]@);
            }
            Some(&entries[k])
        },
        None => None,
    }
}

// ---------------------------------------------------------------------------
// Insert-or-replace
// ---------------------------------------------------------------------------
/// The records whose identifier differs from `id`, in order.
pub open spec fn spec_drop_id(entries: Seq<InUseView>, id: Seq<char>) -> Seq<InUseView> {
    entries.filter(|e: InUseView| e.pack_id != id)
}

/// Insert-or-replace: any record with the same identifier goes, the new
/// record is appended.
pub open spec fn spec_upsert(entries: Seq<InUseView>, new_entry: InUseView) -> Seq<InUseView> {
    spec_drop_id(entries, new_entry.pack_id).push(new_entry)
}

/// Removes any record with the new record's identifier and appends the new
/// record. Pure: the caller persists the result separately.
pub fn upsert(entries: &Vec<InUse>, new_entry: InUse) -> (r: Vec<InUse>)
    ensures
        r.deep_view() == spec_upsert(entries.deep_view(), new_entry@),
{
    let mut out: Vec<InUse> = Vec::new();
    let n = entries.len();
    proof {
        reveal(Seq::filter);
        assert(out.deep_view() =~= spec_drop_id(
            entries.deep_view().take(0int),
            new_entry@.pack_id,
        ));
    }
    for i in 0..n
        invariant
            n == entries.len(),
            out.deep_view() =~= spec_drop_id(
                entries.deep_view().take(i as int),
                new_entry@.pack_id,
            ),
    {
        proof {
            reveal(Seq::filter);
            assert(entries.deep_view().take(i + 1).drop_last() =~= entries.deep_view().take(
                i as int,
            ));
            assert(entries.deep_view().take(i + 1).last() == entries.deep_view()[i as int]);
            assert(entries.deep_view()[i as int] == entries@[i as int]@);
        }
        if !(entries[i].pack_id == new_entry.pack_id) {
            out.push(entries[i].duplicate());
        }
        proof {
            reveal(Seq::filter);
            assert(out.deep_view() =~= spec_drop_id(
                entries.deep_view().take(i + 1),
                new_entry@.pack_id,
            ));
        }
    }
    proof {
        assert(entries.deep_view().take(n as int) =~= entries.deep_view());
    }
    out.push(new_entry);
    out
}

// ---------------------------------------------------------------------------
// Remove by value
// ---------------------------------------------------------------------------
/// The records not equal by value (identifier and version both) to `entry`.
pub open spec fn spec_remove_entry(entries: Seq<InUseView>, entry: InUseView) -> Seq<InUseView> {
    entries.filter(|e: InUseView| e != entry)
}

/// Removes the records equal by value to `entry`; a no-op when none match.
pub fn remove_entry(entries: &Vec<InUse>, entry: &InUse) -> (r: Vec<InUse>)
    ensures
        r.deep_view() == spec_remove_entry(entries.deep_view(), entry@),
{
    let mut out: Vec<InUse> = Vec::new();
    let n = entries.len();
    proof {
        reveal(Seq::filter);
        assert(out.deep_view() =~= spec_remove_entry(entries.deep_view().take(0int), entry@));
    }
    for i in 0..n
        invariant
            n == entries.len(),
            out.deep_view() =~= spec_remove_entry(entries.deep_view().take(i as int), entry@),
    {
        proof {
            reveal(Seq::filter);
            assert(entries.deep_view().take(i + 1).drop_last() =~= entries.deep_view().take(
                i as int,
            ));
            assert(entries.deep_view().take(i + 1).last() == entries.deep_view()[i as int]);
            assert(entries.deep_view()[i as int] == entries@[i as int]@);
        }
        if !entries[i].same_as(entry) {
            out.push(entries[i].duplicate());
        }
        proof {
            reveal(Seq::filter);
            assert(out.deep_view() =~= spec_remove_entry(
                entries.deep_view().take(i + 1),
                entry@,
            ));
        }
    }
    proof {
        assert(entries.deep_view().take(n as int) =~= entries.deep_view());
    }
    out
}

// ---------------------------------------------------------------------------
// Registry laws
// ---------------------------------------------------------------------------
/// The registry invariant: at most one record per pack identifier.
pub open spec fn spec_registry_wf(entries: Seq<InUseView>) -> bool {
    forall|i: int, j: int|
        0 <= i < j < entries.len() ==> (#[trigger] entries[i]).pack_id != (
        #[trigger] entries[j]).pack_id
}

/// How many records carry the given identifier.
pub open spec fn spec_count_id(entries: Seq<InUseView>, id: Seq<char>) -> nat
    decreases entries.len(),
{
    if entries.len() == 0 {
        0
    } else {
        (if entries[0].pack_id == id {
            1nat
        } else {
            0nat
        }) + spec_count_id(entries.skip(1), id)
    }
}

proof fn lemma_count_no_match(s: Seq<InUseView>, id: Seq<char>)
    requires
        forall|i: int| 0 <= i < s.len() ==> (#[trigger] s[i]).pack_id != id,
    ensures
        spec_count_id(s, id) == 0,
    decreases s.len(),
{
    if s.len() > 0 {
        assert forall|i: int| 0 <= i < s.skip(1).len() implies (#[trigger] s.skip(1)[i]).pack_id
            != id by {
            assert(s.skip(1)[i] == s[i + 1]);
        }
        lemma_count_no_match(s.skip(1), id);
    }
}

proof fn lemma_find_push_no_match(s: Seq<InUseView>, e: InUseView)
    requires
        forall|i: int| 0 <= i < s.len() ==> (#[trigger] s[i]).pack_id != e.pack_id,
    ensures
        spec_find(s.push(e), e.pack_id) == Some(e),
        spec_count_id(s.push(e), e.pack_id) == 1,
    decreases s.len(),
{
    if s.len() == 0 {
        assert(s.push(e)[0] == e);
        assert(s.push(e).skip(1) =~= Seq::<InUseView>::empty());
        assert(spec_count_id(s.push(e).skip(1), e.pack_id) == 0);
        assert(spec_count_id(s.push(e), e.pack_id) == 1 + spec_count_id(
            s.push(e).skip(1),
            e.pack_id,
        ));
    } else {
        assert(s.push(e)[0] == s[0]);
        assert(s[0].pack_id != e.pack_id);
        assert(s.push(e).skip(1) =~= s.skip(1).push(e));
        assert forall|i: int| 0 <= i < s.skip(1).len() implies (#[trigger] s.skip(1)[i]).pack_id
            != e.pack_id by {
            assert(s.skip(1)[i] == s[i + 1]);
        }
        lemma_find_push_no_match(s.skip(1), e);
        assert(spec_count_id(s.push(e), e.pack_id) == spec_count_id(
            s.push(e).skip(1),
            e.pack_id,
        ));
        assert(spec_count_id(s.push(e).skip(1), e.pack_id) == spec_count_id(
            s.skip(1).push(e),
            e.pack_id,
        ));
    }
}

/// After `upsert`, `find` on the inserted identifier returns exactly the new
/// record — never an older one — and the identifier occurs exactly once.
pub proof fn lemma_upsert_find(entries: Seq<InUseView>, new_entry: InUseView)
    ensures
        spec_find(spec_upsert(entries, new_entry), new_entry.pack_id) == Some(new_entry),
        spec_count_id(spec_upsert(entries, new_entry), new_entry.pack_id) == 1,
{
    let kept = spec_drop_id(entries, new_entry.pack_id);
    entries.filter_lemma(|e: InUseView| e.pack_id != new_entry.pack_id);
    lemma_find_push_no_match(kept, new_entry);
}

proof fn lemma_wf_skip(entries: Seq<InUseView>)
    requires
        spec_registry_wf(entries),
        entries.len() > 0,
    ensures
        spec_registry_wf(entries.skip(1)),
        forall|i: int|
            0 <= i < entries.skip(1).len() ==> (#[trigger] entries.skip(1)[i]).pack_id
                != entries[0].pack_id,
{
    assert forall|i: int, j: int| 0 <= i < j < entries.skip(1).len() implies (#[trigger] entries.skip(
        1,
    )[i]).pack_id != (#[trigger] entries.skip(1)[j]).pack_id by {
        assert(entries.skip(1)[i] == entries[i + 1]);
        assert(entries.skip(1)[j] == entries[j + 1]);
    }
    assert forall|i: int| 0 <= i < entries.skip(1).len() implies (#[trigger] entries.skip(
        1,
    )[i]).pack_id != entries[0].pack_id by {
        assert(entries.skip(1)[i] == entries[i + 1]);
    }
}

/// On a well-formed registry, `find` answers exactly how often an
/// identifier is registered: once when found, never when not.
pub proof fn lemma_wf_find_count(entries: Seq<InUseView>, id: Seq<char>)
    requires
        spec_registry_wf(entries),
    ensures
        spec_find(entries, id) is Some ==> spec_count_id(entries, id) == 1,
        spec_find(entries, id) is None ==> spec_count_id(entries, id) == 0,
    decreases entries.len(),
{
    if entries.len() > 0 {
        lemma_wf_skip(entries);
        if entries[0].pack_id == id {
            lemma_count_no_match(entries.skip(1), id);
        } else {
            lemma_wf_find_count(entries.skip(1), id);
        }
    }
}

/// `upsert` keeps the registry invariant.
pub proof fn lemma_upsert_preserves_wf(entries: Seq<InUseView>, new_entry: InUseView)
    requires
        spec_registry_wf(entries),
    ensures
        spec_registry_wf(spec_upsert(entries, new_entry)),
{
    let pred = |e: InUseView| e.pack_id != new_entry.pack_id;
    lemma_drop_id_wf(entries, new_entry.pack_id);
    let kept = spec_drop_id(entries, new_entry.pack_id);
    entries.filter_lemma(pred);
    let out = spec_upsert(entries, new_entry);
    assert forall|i: int, j: int| 0 <= i < j < out.len() implies (#[trigger] out[i]).pack_id != (
    #[trigger] out[j]).pack_id by {
        if j < out.len() - 1 {
            assert(out[i] == kept[i] && out[j] == kept[j]);
        } else {
            assert(out[j] == new_entry);
            assert(out[i] == kept[i]);
            assert(pred(kept[i]));
        }
    }
}

proof fn lemma_drop_id_wf(entries: Seq<InUseView>, id: Seq<char>)
    requires
        spec_registry_wf(entries),
    ensures
        spec_registry_wf(spec_drop_id(entries, id)),
    decreases entries.len(),
{
    reveal(Seq::filter);
    let pred = |e: InUseView| e.pack_id != id;
    if entries.len() > 0 {
        assert forall|i: int, j: int|
            0 <= i < j < entries.drop_last().len() implies (#[trigger] entries.drop_last()[i]).pack_id
            != (#[trigger] entries.drop_last()[j]).pack_id by {
            assert(entries.drop_last()[i] == entries[i]);
            assert(entries.drop_last()[j] == entries[j]);
        }
        lemma_drop_id_wf(entries.drop_last(), id);
        let sub = spec_drop_id(entries.drop_last(), id);
        if pred(entries.last()) {
            entries.drop_last().filter_lemma(pred);
            let out = spec_drop_id(entries, id);
            assert(out == sub.push(entries.last()));
            assert forall|i: int, j: int| 0 <= i < j < out.len() implies (#[trigger] out[i]).pack_id
                != (#[trigger] out[j]).pack_id by {
                if j < out.len() - 1 {
                    assert(out[i] == sub[i] && out[j] == sub[j]);
                } else {
                    assert(out[j] == entries.last());
                    assert(out[i] == sub[i]);
                    assert(sub.contains(sub[i]));
                    lemma_filter_element_of(entries.drop_last(), pred, i);
                }
            }
        }
    }
}

proof fn lemma_filter_element_of(s: Seq<InUseView>, pred: spec_fn(InUseView) -> bool, i: int)
    requires
        0 <= i < s.filter(pred).len(),
    ensures
        exists|k: int| 0 <= k < s.len() && s[k] == s.filter(pred)[i],
    decreases s.len(),
{
    reveal(Seq::filter);
    if s.len() > 0 {
        let sub = s.drop_last().filter(pred);
        if pred(s.last()) && i == s.filter(pred).len() - 1 {
            assert(s.filter(pred)[i] == s.last());
            assert(s[s.len() - 1] == s.last());
        } else {
            assert(s.filter(pred)[i] == sub[i]);
            lemma_filter_element_of(s.drop_last(), pred, i);
            let k = choose|k: int| 0 <= k < s.drop_last().len() && s.drop_last()[k] == sub[i];
            assert(s[k] == s.drop_last()[k]);
        }
    }
}

// ---------------------------------------------------------------------------
// Rendering the active-pack-list file
// ---------------------------------------------------------------------------
/// A lowercase hexadecimal digit.
pub open spec fn hex_char(d: int) -> char {
    if d < 10 {
        digit_char(d)
    } else if d == 10 {
        'a'
    } else if d == 11 {
        'b'
    } else if d == 12 {
        'c'
    } else if d == 13 {
        'd'
    } else if d == 14 {
        'e'
    } else {
        'f'
    }
}

/// How one character stands inside a JSON string: quote and backslash are
/// escaped, control characters take their short escapes or the four-digit
/// form, everything else stands as itself.
pub open spec fn json_escape_char(c: char) -> Seq<char> {
    if c == '"' {
        seq!['\\', '"']
    } else if c == '\\' {
        seq!['\\', '\\']
    } else if c == '\u{8}' {
        seq!['\\', 'b']
    } else if c == '\t' {
        seq!['\\', 't']
    } else if c == '\n' {
        seq!['\\', 'n']
    } else if c == '\u{c}' {
        seq!['\\', 'f']
    } else if c == '\r' {
        seq!['\\', 'r']
    } else if (c as int) < 32 {
        let hi = hex_char((c as int) / 16);
        let lo = hex_char((c as int) % 16);
        seq!['\\', 'u', '0', '0', hi, lo]
    } else {
        seq![c]
    }
}

pub open spec fn json_escape(s: Seq<char>) -> Seq<char>
    decreases s.len(),
{
    if s.len() == 0 {
        Seq::empty()
    } else {
        json_escape(s.drop_last()) + json_escape_char(s.last())
    }
}

/// A JSON string literal holding `s`.
pub open spec fn json_string(s: Seq<char>) -> Seq<char> {
    seq!['"'] + json_escape(s) + seq!['"']
}

/// A version in the list file: the 3-element array where that encoding is
/// exact, the canonical string where pre-release or build metadata exists.
pub open spec fn spec_version_json(v: VersionView) -> Seq<char> {
    if v.pre.len() == 0 && v.build.len() == 0 {
        seq!['['] + dec_str(v.major) + seq![','] + dec_str(v.minor) + seq![','] + dec_str(v.patch)
            + seq![']']
    } else {
        json_string(spec_canonical(v))
    }
}

/// One record of the list file.
pub open spec fn spec_entry_json(e: InUseView) -> Seq<char> {
    "{\"pack_id\":"@ + json_string(e.pack_id) + ",\"version\":"@ + spec_version_json(e.version)
        + seq!['}']
}

pub open spec fn spec_entries_json(entries: Seq<InUseView>) -> Seq<char>
    decreases entries.len(),
{
    if entries.len() == 0 {
        Seq::empty()
    } else if entries.len() == 1 {
        spec_entry_json(entries[0])
    } else {
        spec_entries_json(entries.drop_last()) + seq![','] + spec_entry_json(entries.last())
    }
}

/// The whole active-pack-list file: the records as a JSON array.
pub open spec fn spec_packet_list_json(entries: Seq<InUseView>) -> Seq<char> {
    seq!['['] + spec_entries_json(entries) + seq![']']
}

fn hex_char_exec(d: u32) -> (r: char)
    requires
        d < 16,
    ensures
        r == hex_char(d as int),
{
    match d {
        0 => '0',
        1 => '1',
        2 => '2',
        3 => '3',
        4 => '4',
        5 => '5',
        6 => '6',
        7 => '7',
        8 => '8',
        9 => '9',
        10 => 'a',
        11 => 'b',
        12 => 'c',
        13 => 'd',
        14 => 'e',
        _ => 'f',
    }
}

fn push_json_escaped(out: &mut String, s: &String)
    ensures
        final(out)@ == old(out)@ + json_escape(s@),
{
    let n = s.as_str().unicode_len();
    proof {
        assert(s@.take(0int) =~= Seq::<char>::empty());
        assert(out@ =~= old(out)@ + json_escape(s@.take(0int)));
    }
    for i in 0..n
        invariant
            n == s@.len(),
            out@ == old(out)@ + json_escape(s@.take(i as int)),
    {
        let c = s.as_str().get_char(i);
        proof {
            assert(s@.take(i + 1).drop_last() =~= s@.take(i as int));
            assert(s@.take(i + 1).last() == s@[i as int]);
        }
        if c == '"' {
            push_char(out, '\\');
            push_char(out, '"');
        } else if c == '\\' {
            push_char(out, '\\');
            push_char(out, '\\');
        } else if c == '\u{8}' {
            push_char(out, '\\');
            push_char(out, 'b');
        } else if c == '\t' {
            push_char(out, '\\');
            push_char(out, 't');
        } else if c == '\n' {
            push_char(out, '\\');
            push_char(out, 'n');
        } else if c == '\u{c}' {
            push_char(out, '\\');
            push_char(out, 'f');
        } else if c == '\r' {
            push_char(out, '\\');
            push_char(out, 'r');
        } else if (c as u32) < 32 {
            push_char(out, '\\');
            push_char(out, 'u');
            push_char(out, '0');
            push_char(out, '0');
            push_char(out, hex_char_exec((c as u32) / 16));
            push_char(out, hex_char_exec((c as u32) % 16));
        } else {
            push_char(out, c);
        }
        proof {
            assert(out@ =~= old(out)@ + json_escape(s@.take(i + 1)));
        }
    }
    proof {
        assert(s@.take(n as int) =~= s@);
    }
}

fn push_json_string(out: &mut String, s: &String)
    ensures
        final(out)@ == old(out)@ + json_string(s@),
{
    push_char(out, '"');
    push_json_escaped(out, s);
    push_char(out, '"');
    proof {
        assert(out@ =~= old(out)@ + json_string(s@));
    }
}

fn push_version_json(out: &mut String, v: &AddonVersion)
    ensures
        final(out)@ == old(out)@ + spec_version_json(v@),
{
    if v.pre.len() == 0 && v.build.len() == 0 {
        push_char(out, '[');
        crate::addon::version::push_dec(out, v.major);
        push_char(out, ',');
        crate::addon::version::push_dec(out, v.minor);
        push_char(out, ',');
        crate::addon::version::push_dec(out, v.patch);
        push_char(out, ']');
        proof {
            assert(v@.pre.len() == 0 && v@.build.len() == 0);
            assert(out@ =~= old(out)@ + spec_version_json(v@));
        }
    } else {
        let canonical = v.to_canonical_string();
        push_char(out, '"');
        push_json_escaped(out, &canonical);
        push_char(out, '"');
        proof {
            assert(out@ =~= old(out)@ + spec_version_json(v@));
        }
    }
}

/// Renders the whole active-pack-list file — the full sequence, not a
/// delta — as strict JSON: plain triples keep the array encoding, versions
/// with pre-release or build metadata the string encoding.
pub fn to_packet_list_string(list: &Vec<InUse>) -> (r: String)
    ensures
        r@ == spec_packet_list_json(list.deep_view()),
{
    let mut out = String::new();
    push_char(&mut out, '[');
    let n = list.len();
    proof {
        assert(list.deep_view().take(0int) =~= Seq::<InUseView>::empty());
        assert(out@ =~= seq!['['] + spec_entries_json(list.deep_view().take(0int)));
    }
    for i in 0..n
        invariant
            n == list.len(),
            out@ == seq!['['] + spec_entries_json(list.deep_view().take(i as int)),
    {
        proof {
            assert(list.deep_view().take(i + 1).drop_last() =~= list.deep_view().take(i as int));
            assert(list.deep_view().take(i + 1).last() == list.deep_view()[i as int]);
            assert(list.deep_view()[i as int] == list@[i as int]@);
        }
        if i > 0 {
            push_char(&mut out, ',');
        }
        out.append("{\"pack_id\":");
        push_json_string(&mut out, &list[i].pack_id);
        out.append(",\"version\":");
        push_version_json(&mut out, &list[i].version);
        push_char(&mut out, '}');
        proof {
            assert(out@ =~= seq!['['] + spec_entries_json(list.deep_view().take(i + 1)));
        }
    }
    push_char(&mut out, ']');
    proof {
        assert(list.deep_view().take(n as int) =~= list.deep_view());
        assert(out@ =~= spec_packet_list_json(list.deep_view()));
    }
    out
}

} // verus!
