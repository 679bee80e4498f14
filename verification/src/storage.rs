use vstd::prelude::*;
use vstd::multiset::Multiset;
use crate::app::App;
use crate::entry::{EntryModel, JournalEntry, StatefulList};
use crate::order::{lex_le, lex_lt, lemma_lex_le_trans, lemma_lex_total, str_lt};

verus! {

broadcast use vstd::seq_lib::group_to_multiset_ensures, vstd::multiset::group_multiset_axioms;

/// One raw directory listing entry handed to the loader: a file's
/// name, its size in bytes, and its full text. Entries whose metadata
/// or content could not be read are skipped by the caller and never
/// reach the loader.
pub struct FileRecord {
    pub name: String,
    pub size: u64,
    pub content: String,
}

/// Mathematical model of a `FileRecord`.
pub ghost struct RecordModel {
    pub name: Seq<char>,
    pub size: u64,
    pub content: Seq<char>,
}

impl View for FileRecord {
    type V = RecordModel;

    open spec fn view(&self) -> RecordModel {
        RecordModel { name: self.name@, size: self.size, content: self.content@ }
    }
}

/// The models of a sequence of records.
pub open spec fn record_models(s: Seq<FileRecord>) -> Seq<RecordModel> {
    s.map_values(|r: FileRecord| r@)
}

/// The models of a sequence of entries.
pub open spec fn entry_models(s: Seq<JournalEntry>) -> Seq<EntryModel> {
    s.map_values(|e: JournalEntry| e@)
}

/// The fixed suffix that marks a file as a journal entry.
pub open spec fn entry_suffix() -> Seq<char> {
    seq!['.', 'm', 'd']
}

/// A file name carries the journal suffix when it ends in the suffix
/// and a non-empty date identifier stands before it.
pub open spec fn has_entry_suffix(name: Seq<char>) -> bool {
    name.len() > 3 && name.subrange(name.len() - 3, name.len() as int) == entry_suffix()
}

/// The date identifier of a file name: the name with the suffix
/// stripped.
pub open spec fn date_of_name(name: Seq<char>) -> Seq<char>
    recommends
        has_entry_suffix(name),
{
    name.subrange(0, name.len() - 3)
}

/// The file name that addresses a date: the date with the suffix
/// appended. This mapping is the sole addressing scheme for entries.
pub open spec fn name_of_date(date: Seq<char>) -> Seq<char> {
    date + entry_suffix()
}

/// The entry that a raw record denotes once its name is known to carry
/// the suffix.
pub open spec fn entry_model_of(r: RecordModel) -> EntryModel {
    EntryModel { date: date_of_name(r.name), size: r.size, content: r.content }
}

/// The entries of a raw listing, in listing order: records lacking the
/// suffix contribute nothing.
pub open spec fn collect_entries_spec(l: Seq<RecordModel>) -> Seq<EntryModel>
    decreases l.len(),
{
    if l.len() == 0 {
        Seq::empty()
    } else {
        let rest = collect_entries_spec(l.drop_last());
        if has_entry_suffix(l.last().name) {
            rest.push(entry_model_of(l.last()))
        } else {
            rest
        }
    }
}

/// Entries stand in descending date order (most recent first).
pub open spec fn sorted_desc(s: Seq<EntryModel>) -> bool {
    forall|i: int, j: int| 0 <= i < j < s.len() ==> lex_le(s[j].date, s[i].date)
}

/// Entries stand in strictly descending date order.
pub open spec fn strictly_sorted_desc(s: Seq<EntryModel>) -> bool {
    forall|i: int, j: int| 0 <= i < j < s.len() ==> lex_lt(s[j].date, s[i].date)
}

/// No two entries share a date.
pub open spec fn distinct_dates(s: Seq<EntryModel>) -> bool {
    forall|i: int, j: int| 0 <= i < j < s.len() ==> s[i].date != s[j].date
}

/// No two records share a file name, as holds of any directory
/// listing.
pub open spec fn distinct_names(s: Seq<RecordModel>) -> bool {
    forall|i: int, j: int| 0 <= i < j < s.len() ==> s[i].name != s[j].name
}

/// The entry stems from a record of the listing whose name carries
/// the journal suffix.
pub open spec fn from_suffixed_record(l: Seq<RecordModel>, e: EntryModel) -> bool {
    exists|i: int|
        0 <= i < l.len() && has_entry_suffix(#[trigger] l[i].name) && e == entry_model_of(l[i])
}

/// Path mapping: appending the suffix to a date is undone exactly by
/// stripping it, so a date is recoverable from its file name.
pub proof fn lemma_name_date_round_trip(date: Seq<char>)
    requires
        date.len() > 0,
    ensures
        has_entry_suffix(name_of_date(date)),
        date_of_name(name_of_date(date)) == date,
{
    let n = name_of_date(date);
    assert(n.subrange(n.len() - 3, n.len() as int) =~= entry_suffix());
    assert(n.subrange(0, n.len() - 3) =~= date);
}

/// The addressing scheme is injective: distinct dates resolve to
/// distinct file names, and a suffixed name is determined by its date.
pub proof fn lemma_date_of_name_injective(n1: Seq<char>, n2: Seq<char>)
    requires
        has_entry_suffix(n1),
        has_entry_suffix(n2),
        date_of_name(n1) == date_of_name(n2),
    ensures
        n1 == n2,
{
    assert(date_of_name(n1).len() == n1.len() - 3);
    assert(date_of_name(n2).len() == n2.len() - 3);
    assert forall|i: int| 0 <= i < n1.len() implies n1[i] == n2[i] by {
        if i < n1.len() - 3 {
            assert(n1[i] == date_of_name(n1)[i]);
            assert(n2[i] == date_of_name(n2)[i]);
        } else {
            assert(n1[i] == n1.subrange(n1.len() - 3, n1.len() as int)[i - (n1.len() - 3)]);
            assert(n2[i] == n2.subrange(n2.len() - 3, n2.len() as int)[i - (n2.len() - 3)]);
        }
    }
    assert(n1 =~= n2);
}

/// Resolves the file name that stores the entry of a date.
pub fn entry_file_name(date: &str) -> (r: String)
    ensures
        r@ == name_of_date(date@),
{
    let mut r: String = date.to_owned();
    r.append(".md");
    proof {
        reveal_strlit(".md");
        assert(".md"@ =~= entry_suffix());
        assert(r@ =~= name_of_date(date@));
    }
    r
}

/// Recovers the date identifier from a file name, or nothing when the
/// name does not carry the journal suffix.
pub fn date_from_file_name(name: &str) -> (r: Option<String>)
    ensures
        has_entry_suffix(name@) ==> (r matches Some(d) && d@ == date_of_name(name@)),
        !has_entry_suffix(name@) ==> r is None,
{
    let n: usize = name.unicode_len();
    if n <= 3 {
        return None;
    }
    let c1: char = name.get_char(n - 3);
    let c2: char = name.get_char(n - 2);
    let c3: char = name.get_char(n - 1);
    proof {
        assert(name@.subrange(n - 3, n as int)[0] == name@[n - 3]);
        assert(name@.subrange(n - 3, n as int)[1] == name@[n - 2]);
        assert(name@.subrange(n - 3, n as int)[2] == name@[n - 1]);
        assert(entry_suffix()[0] == '.' && entry_suffix()[1] == 'm' && entry_suffix()[2] == 'd');
    }
    if c1 == '.' && c2 == 'm' && c3 == 'd' {
        proof {
            assert(name@.subrange(n - 3, n as int) =~= entry_suffix());
        }
        let stem: &str = name.substring_char(0, n - 3);
        Some(stem.to_owned())
    } else {
        None
    }
}

/// Turns a raw listing into journal entries, in listing order: keeps
/// exactly the records whose name carries the suffix, derives each date
/// by stripping it, and copies size and content.
pub fn collect_entries(listing: &Vec<FileRecord>) -> (r: Vec<JournalEntry>)
    ensures
        entry_models(r@) == collect_entries_spec(record_models(listing@)),
{
    let mut out: Vec<JournalEntry> = Vec::new();
    let mut idx: usize = 0;
    while idx < listing.len()
        invariant
            idx <= listing@.len(),
            entry_models(out@) == collect_entries_spec(record_models(listing@).take(idx as int)),
        decreases listing@.len() - idx,
    {
        let rec: &FileRecord = &listing[idx];
        let ghost pre = out@;
        match date_from_file_name(rec.name.as_str()) {
            Some(date) => {
                let e = JournalEntry { date, size: rec.size, content: rec.content.clone() };
                proof {
                    assert(e@ == entry_model_of(rec@));
                }
                out.push(e);
            },
            None => {},
        }
        proof {
            let ms = record_models(listing@);
            assert(ms.take(idx + 1).drop_last() =~= ms.take(idx as int));
            assert(ms.take(idx + 1).last() == ms[idx as int]);
            if has_entry_suffix(ms[idx as int].name) {
                assert(entry_models(out@) =~= entry_models(pre).push(
                    entry_model_of(ms[idx as int]),
                ));
            }
            assert(entry_models(out@) =~= collect_entries_spec(ms.take(idx + 1)));
        }
        idx = idx + 1;
    }
    proof {
        assert(record_models(listing@).take(listing@.len() as int) =~= record_models(listing@));
    }
    out
}

/// Mapping to models commutes with appending an entry.
proof fn lemma_entry_models_push(s: Seq<JournalEntry>, e: JournalEntry)
    ensures
        entry_models(s.push(e)) == entry_models(s).push(e@),
{
    assert(entry_models(s.push(e)) =~= entry_models(s).push(e@));
}

/// Mapping to models commutes with dropping the last entry.
proof fn lemma_entry_models_drop_last(s: Seq<JournalEntry>)
    requires
        s.len() > 0,
    ensures
        entry_models(s.drop_last()) == entry_models(s).drop_last(),
{
    assert(entry_models(s.drop_last()) =~= entry_models(s).drop_last());
}

/// Mapping to models commutes with inserting an entry.
proof fn lemma_entry_models_insert(s: Seq<JournalEntry>, pos: int, e: JournalEntry)
    requires
        0 <= pos <= s.len(),
    ensures
        entry_models(s.insert(pos, e)) == entry_models(s).insert(pos, e@),
{
    s.insert_ensures(pos, e);
    entry_models(s).insert_ensures(pos, e@);
    assert(entry_models(s.insert(pos, e)) =~= entry_models(s).insert(pos, e@));
}

/// Filter invariant: every entry of a collected listing stems from a
/// record whose name carries the journal suffix; records lacking it
/// are never present, regardless of content.
pub proof fn lemma_collect_elements(l: Seq<RecordModel>)
    ensures
        forall|k: int|
            0 <= k < collect_entries_spec(l).len() ==> from_suffixed_record(
                l,
                #[trigger] collect_entries_spec(l)[k],
            ),
    decreases l.len(),
{
    if l.len() > 0 {
        lemma_collect_elements(l.drop_last());
        let prefix = l.drop_last();
        let rest = collect_entries_spec(prefix);
        let c = collect_entries_spec(l);
        assert forall|k: int| 0 <= k < c.len() implies from_suffixed_record(l, #[trigger] c[k]) by {
            if k < rest.len() {
                assert(c[k] == rest[k]);
                assert(from_suffixed_record(prefix, rest[k]));
                let i0 = choose|i: int|
                    0 <= i < prefix.len() && has_entry_suffix(#[trigger] prefix[i].name)
                        && rest[k] == entry_model_of(prefix[i]);
                assert(prefix[i0] == l[i0]);
                assert(has_entry_suffix(l[i0].name) && c[k] == entry_model_of(l[i0]));
            } else {
                assert(has_entry_suffix(l[l.len() - 1].name) && c[k] == entry_model_of(
                    l[l.len() - 1],
                ));
            }
        }
    }
}

/// A listing of distinctly named files collects to entries with
/// pairwise distinct dates.
pub proof fn lemma_collect_distinct_dates(l: Seq<RecordModel>)
    requires
        distinct_names(l),
    ensures
        distinct_dates(collect_entries_spec(l)),
    decreases l.len(),
{
    if l.len() > 0 {
        let prefix = l.drop_last();
        assert forall|i: int, j: int| 0 <= i < j < prefix.len() implies prefix[i].name
            != prefix[j].name by {
            assert(prefix[i] == l[i] && prefix[j] == l[j]);
        }
        lemma_collect_distinct_dates(prefix);
        lemma_collect_elements(prefix);
        let rest = collect_entries_spec(prefix);
        let c = collect_entries_spec(l);
        if has_entry_suffix(l.last().name) {
            let last_model = entry_model_of(l.last());
            assert forall|i: int, j: int| 0 <= i < j < c.len() implies c[i].date != c[j].date by {
                if j < rest.len() {
                    assert(c[i] == rest[i] && c[j] == rest[j]);
                } else {
                    assert(c[i] == rest[i] && c[j] == last_model);
                    assert(from_suffixed_record(prefix, rest[i]));
                    let i0 = choose|i0: int|
                        0 <= i0 < prefix.len() && has_entry_suffix(#[trigger] prefix[i0].name)
                            && rest[i] == entry_model_of(prefix[i0]);
                    assert(prefix[i0] == l[i0]);
                    if rest[i].date == last_model.date {
                        lemma_date_of_name_injective(l[i0].name, l.last().name);
                        assert(l[i0].name == l[l.len() - 1].name);
                        assert(false);
                    }
                }
            }
        } else {
            assert forall|i: int, j: int| 0 <= i < j < c.len() implies c[i].date != c[j].date by {
                assert(c[i] == rest[i] && c[j] == rest[j]);
            }
        }
    }
}

/// Entries sorted in descending order with pairwise distinct dates
/// stand in strictly descending order.
pub proof fn lemma_sorted_distinct_strict(s: Seq<EntryModel>)
    requires
        sorted_desc(s),
        distinct_dates(s),
    ensures
        strictly_sorted_desc(s),
{
    assert forall|i: int, j: int| 0 <= i < j < s.len() implies lex_lt(s[j].date, s[i].date) by {
        assert(lex_le(s[j].date, s[i].date));
        assert(s[i].date != s[j].date);
    }
}

/// Finds the position before which every already sorted entry has a
/// date strictly above `d`, scanning from the most recent entry.
fn find_insert_pos(out: &Vec<JournalEntry>, d: &str) -> (pos: usize)
    ensures
        pos <= out@.len(),
        forall|i: int| 0 <= i < pos ==> lex_lt(d@, entry_models(out@)[i].date),
        pos < out@.len() ==> !lex_lt(d@, entry_models(out@)[pos as int].date),
{
    let n: usize = out.len();
    let mut pos: usize = 0;
    while pos < n
        invariant
            pos <= n,
            n == out@.len(),
            forall|i: int| 0 <= i < pos ==> lex_lt(d@, entry_models(out@)[i].date),
        decreases n - pos,
    {
        let oe: &JournalEntry = &out[pos];
        if !str_lt(d, oe.date.as_str()) {
            return pos;
        }
        assert(lex_lt(d@, entry_models(out@)[pos as int].date));
        pos = pos + 1;
    }
    pos
}

/// Sorts entries by date in descending order. The result holds exactly
/// the given entries; when their dates are pairwise distinct, it keeps
/// them pairwise distinct.
pub fn sort_entries(input: Vec<JournalEntry>) -> (r: Vec<JournalEntry>)
    ensures
        entry_models(r@).to_multiset() == entry_models(input@).to_multiset(),
        sorted_desc(entry_models(r@)),
        distinct_dates(entry_models(input@)) ==> distinct_dates(entry_models(r@)),
{
    let ghost whole = entry_models(input@).to_multiset();
    let mut rest = input;
    let mut out: Vec<JournalEntry> = Vec::new();
    while rest.len() > 0
        invariant
            entry_models(out@).to_multiset().add(entry_models(rest@).to_multiset()) == whole,
            whole == entry_models(input@).to_multiset(),
            sorted_desc(entry_models(out@)),
            distinct_dates(entry_models(input@)) ==> distinct_dates(entry_models(out@)),
        decreases rest@.len(),
    {
        let ghost rest0 = rest@;
        let ghost out0 = entry_models(out@);
        let e: JournalEntry = match rest.pop() {
            Some(e) => e,
            None => {
                proof {
                    assert(false);
                }
                unreached()
            },
        };
        proof {
            lemma_entry_models_drop_last(rest0);
            assert(entry_models(rest0) =~= entry_models(rest@).push(e@));
            assert(entry_models(rest0).to_multiset() == entry_models(rest@).to_multiset().insert(
                e@,
            ));
        }
        let pos: usize = find_insert_pos(&out, e.date.as_str());
        proof {
            // The new arrangement of models, described index by index.
            lemma_entry_models_insert(out@, pos as int, e);
            out0.insert_ensures(pos as int, e@);
            let now = out0.insert(pos as int, e@);
            // Everything from `pos` on is at or below the new date.
            if pos < out0.len() {
                lemma_lex_total(e@.date, out0[pos as int].date);
                assert forall|j: int| pos <= j < out0.len() implies lex_le(
                    out0[j].date,
                    e@.date,
                ) by {
                    if pos < j {
                        lemma_lex_le_trans(out0[j].date, out0[pos as int].date, e@.date);
                    }
                }
            }
            assert forall|i: int, j: int| 0 <= i < j < now.len() implies lex_le(
                now[j].date,
                now[i].date,
            ) by {
                if j < pos {
                } else if i > pos {
                    assert(now[i] == out0[i - 1] && now[j] == out0[j - 1]);
                } else if i == pos && j > pos {
                    assert(now[j] == out0[j - 1]);
                } else if j == pos {
                    assert(now[i] == out0[i]);
                } else if i < pos && j > pos {
                    assert(now[i] == out0[i] && now[j] == out0[j - 1]);
                    lemma_lex_le_trans(now[j].date, e@.date, now[i].date);
                }
            }
            // Distinctness carries over: each sorted model stems from
            // the given entries, as does the one being placed.
            if distinct_dates(entry_models(input@)) {
                assert forall|i: int| 0 <= i < out0.len() implies out0[i].date != e@.date by {
                    if out0[i].date == e@.date {
                        assert(out0.to_multiset().count(out0[i]) > 0);
                        assert(whole.count(out0[i]) > 0);
                        assert(entry_models(rest0).to_multiset().count(e@) > 0);
                        assert(whole.count(e@) > 0);
                        let all = entry_models(input@);
                        assert(all.contains(out0[i]));
                        assert(all.contains(e@));
                        let i1 = choose|i1: int| 0 <= i1 < all.len() && all[i1] == out0[i];
                        let i2 = choose|i2: int| 0 <= i2 < all.len() && all[i2] == e@;
                        if out0[i] == e@ {
                            assert(whole.count(e@) >= 2);
                            assert(all.to_multiset().count(e@) >= 2);
                            let removed = all.remove(i2);
                            assert(removed.to_multiset() == all.to_multiset().remove(e@));
                            assert(removed.to_multiset().count(e@) > 0);
                            assert(removed.contains(e@));
                            let i3 = choose|i3: int|
                                0 <= i3 < removed.len() && removed[i3] == e@;
                            all.remove_ensures(i2);
                            if i3 < i2 {
                                assert(all[i3] == e@);
                            } else {
                                assert(all[i3 + 1] == e@);
                            }
                            assert(false);
                        } else {
                            assert(i1 != i2);
                            assert(false);
                        }
                    }
                }
                assert forall|i: int, j: int| 0 <= i < j < now.len() implies now[i].date
                    != now[j].date by {
                    if j < pos {
                    } else if i > pos {
                        assert(now[i] == out0[i - 1] && now[j] == out0[j - 1]);
                    } else if i == pos {
                        assert(now[j] == out0[j - 1]);
                    } else if j == pos {
                        assert(now[i] == out0[i]);
                    } else {
                        assert(now[i] == out0[i] && now[j] == out0[j - 1]);
                    }
                }
            }
        }
        out.insert(pos, e);
        proof {
            assert(entry_models(out@).to_multiset() == out0.to_multiset().insert(e@));
            assert(entry_models(out@).to_multiset().add(entry_models(rest@).to_multiset())
                =~= whole);
        }
    }
    proof {
        assert(entry_models(rest@).to_multiset() =~= Multiset::empty());
        assert(entry_models(out@).to_multiset() =~= whole);
    }
    out
}

/// Loads the journal from a raw directory listing: keeps exactly the
/// files carrying the journal suffix, derives each date by stripping
/// it, and returns the entries sorted by date, most recent first —
/// strictly descending whenever the listing's file names are distinct.
pub fn load_entries(listing: Vec<FileRecord>) -> (r: Vec<JournalEntry>)
    ensures
        entry_models(r@).to_multiset() == collect_entries_spec(record_models(listing@))
            .to_multiset(),
        sorted_desc(entry_models(r@)),
        distinct_names(record_models(listing@)) ==> strictly_sorted_desc(entry_models(r@)),
        forall|k: int|
            0 <= k < entry_models(r@).len() ==> from_suffixed_record(
                record_models(listing@),
                #[trigger] entry_models(r@)[k],
            ),
{
    let collected = collect_entries(&listing);
    let r = sort_entries(collected);
    proof {
        let lm = record_models(listing@);
        let cm = collect_entries_spec(lm);
        let rm = entry_models(r@);
        if distinct_names(lm) {
            lemma_collect_distinct_dates(lm);
            lemma_sorted_distinct_strict(rm);
        }
        lemma_collect_elements(lm);
        assert forall|k: int| 0 <= k < rm.len() implies from_suffixed_record(
            lm,
            #[trigger] rm[k],
        ) by {
            assert(rm.to_multiset().count(rm[k]) > 0);
            assert(cm.to_multiset().count(rm[k]) > 0);
            assert(cm.contains(rm[k]));
            let k0 = choose|k0: int| 0 <= k0 < cm.len() && cm[k0] == rm[k];
            assert(from_suffixed_record(lm, cm[k0]));
        }
    }
    r
}

/// Reloads the application's entries from a fresh directory listing:
/// the loaded, sorted entries replace the old list wholesale, in a
/// fresh list whose selection is reset; nothing else changes.
pub fn refresh_entries(app: &mut App, listing: Vec<FileRecord>)
    ensures
        final(app).entries_list.selected is None,
        final(app).entries_list.wf(),
        sorted_desc(entry_models(final(app).entries_list.items@)),
        entry_models(final(app).entries_list.items@).to_multiset() == collect_entries_spec(
            record_models(listing@),
        ).to_multiset(),
        distinct_names(record_models(listing@)) ==> strictly_sorted_desc(
            entry_models(final(app).entries_list.items@),
        ),
        final(app).tab_index == old(app).tab_index,
        final(app).input_mode == old(app).input_mode,
        final(app).show_help == old(app).show_help,
        final(app).editor == old(app).editor,
        final(app).status_message == old(app).status_message,
        final(app).status_time == old(app).status_time,
{
    let entries = load_entries(listing);
    app.entries_list = StatefulList::with_items(entries);
}

} // verus!
