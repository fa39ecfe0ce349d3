//! What a client sends: the panels to cut, their edge banding, who is asking, and the
//! limits the service works within.

use vstd::prelude::*;
use vstd::string::*;
use crate::model::tile::DEFAULT_MATERIAL;
use crate::support::{same_text, int_decimal, push_i64_decimal, seq_sum};

verus! {

/// A panel as the client describes it; its sizes are decimal texts.
#[derive(Debug)]
pub struct Panel {
    pub id: i32,
    pub width: String,
    pub height: String,
    pub count: i32,
    pub material: String,
    pub enabled: bool,
    /// 0: any orientation, 1: horizontal only, 2: vertical only.
    pub orientation: i32,
    pub label: Option<String>,
    pub edge: Option<Edge>,
}

impl Panel {
    /// An enabled panel of any orientation, without label or edge banding; the
    /// material defaults to `DEFAULT_MATERIAL`.
    pub fn new(id: i32, width: String, height: String, count: i32, material: Option<String>) -> (p: Panel)
        ensures
            p.id == id,
            p.width == width,
            p.height == height,
            p.count == count,
            p.material@ == (match material {
                Some(m) => m@,
                None => DEFAULT_MATERIAL@,
            }),
            p.enabled,
            p.orientation == 0,
            p.label is None,
            p.edge is None,
    {
        let material = match material {
            Some(m) => m,
            None => String::from_str(DEFAULT_MATERIAL),
        };
        Panel { id, width, height, count, material, enabled: true, orientation: 0, label: None, edge: None }
    }
}

/// How a panel is written: `[<width>x<height>]*<count>`, followed by `-disabled` when
/// the panel is not enabled.
pub open spec fn panel_text(p: Panel) -> Seq<char> {
    seq!['['] + p.width@ + seq!['x'] + p.height@ + seq![']', '*'] + int_decimal(p.count as int)
        + if p.enabled { Seq::empty() } else { "-disabled"@ }
}

/// The panels with a positive count, each written after a space.
pub open spec fn panels_text(ps: Seq<Panel>) -> Seq<char>
    decreases ps.len(),
{
    if ps.len() == 0 {
        Seq::empty()
    } else {
        panels_text(ps.drop_last()) + if ps.last().count > 0 { seq![' '] + panel_text(ps.last()) } else { Seq::empty() }
    }
}

/// The counts of the panels marked valid, as `usize` values.
pub open spec fn valid_counts(ps: Seq<Panel>, valid: Seq<bool>) -> Seq<int> {
    Seq::new(ps.len(), |k: int| if valid[k] { (ps[k].count as usize) as int } else { 0 })
}

impl Panel {
    /// Whether the panel takes part in a calculation: enabled, of positive count, and
    /// with width and height that read as numbers above zero. Reading the decimal texts is
    /// floating point and is done by the caller: `width_positive` and `height_positive`
    /// say whether each text reads as a number above zero.
    pub fn is_valid(&self, width_positive: bool, height_positive: bool) -> (b: bool)
        ensures
            b == (self.enabled && self.count > 0 && width_positive && height_positive),
    {
        if !self.enabled || self.count <= 0 {
            return false;
        }
        width_positive && height_positive
    }

    /// The panel as text (see `panel_text`).
    pub fn to_text(&self) -> (r: String)
        ensures
            r@ == panel_text(*self),
    {
        let mut s = String::new();
        proof {
            reveal_strlit("[");
            reveal_strlit("x");
            reveal_strlit("]*");
            reveal_strlit("-disabled");
        }
        s.append("[");
        s.append(self.width.as_str());
        s.append("x");
        s.append(self.height.as_str());
        s.append("]*");
        push_i64_decimal(&mut s, self.count as i64);
        if !self.enabled {
            s.append("-disabled");
        }
        assert(s@ =~= panel_text(*self));
        s
    }
}

/// The panels with a positive count, each written after a space (see `panels_text`).
pub fn panels_to_string(panels: &[Panel]) -> (r: String)
    ensures
        r@ == panels_text(panels@),
{
    let mut result = String::new();
    let mut i: usize = 0;
    while i < panels.len()
        invariant
            0 <= i <= panels@.len(),
            result@ == panels_text(panels@.take(i as int)),
        decreases panels@.len() - i,
    {
        proof {
            reveal_strlit(" ");
            assert(panels@.take(i + 1).drop_last() =~= panels@.take(i as int));
            assert(panels@.take(i + 1).last() == panels@[i as int]);
        }
        if panels[i].count > 0 {
            result.append(" ");
            let text = panels[i].to_text();
            result.append(text.as_str());
        }
        i = i + 1;
        assert(result@ =~= panels_text(panels@.take(i as int)));
    }
    assert(panels@.take(i as int) =~= panels@);
    result
}

/// The total count of the panels marked valid. A panel is valid when it is enabled, its
/// count is positive and both its sizes are positive numbers; reading the sizes as
/// numbers is left to the caller, who marks each panel.
pub fn count_valid(panels: &[Panel], valid: &[bool]) -> (r: usize)
    requires
        valid@.len() == panels@.len(),
        seq_sum(valid_counts(panels@, valid@)) <= usize::MAX,
    ensures
        r == seq_sum(valid_counts(panels@, valid@)),
{
    let ghost all = valid_counts(panels@, valid@);
    let mut total: usize = 0;
    let mut i: usize = 0;
    while i < panels.len()
        invariant
            0 <= i <= panels@.len(),
            valid@.len() == panels@.len(),
            all == valid_counts(panels@, valid@),
            seq_sum(all) <= usize::MAX,
            total == seq_sum(all.take(i as int)),
        decreases panels@.len() - i,
    {
        proof {
            crate::support::lemma_seq_take_step(all, i as int);
            crate::support::lemma_seq_sum_prefix_le(all, i + 1);
        }
        if valid[i] {
            total = total + panels[i].count as usize;
        }
        i = i + 1;
    }
    assert(all.take(i as int) =~= all);
    total
}

/// The edge banding on each side of a panel, by band type.
#[derive(Debug)]
pub struct Edge {
    pub top: Option<String>,
    pub left: Option<String>,
    pub bottom: Option<String>,
    pub right: Option<String>,
}

impl Edge {
    /// No banding on any side.
    pub fn new() -> (e: Edge)
        ensures
            e.top is None,
            e.left is None,
            e.bottom is None,
            e.right is None,
    {
        Edge { top: None, left: None, bottom: None, right: None }
    }

    /// The same banding on all four sides.
    pub fn all_sides(edge_type: String) -> (e: Edge)
        ensures
            e.top == Some(edge_type),
            e.left == Some(edge_type),
            e.bottom == Some(edge_type),
            e.right == Some(edge_type),
    {
        Edge {
            top: Some(edge_type.clone()),
            left: Some(edge_type.clone()),
            bottom: Some(edge_type.clone()),
            right: Some(edge_type),
        }
    }

    /// Whether some side is banded.
    pub fn has_any_edge(&self) -> (r: bool)
        ensures
            r == (self.top is Some || self.left is Some || self.bottom is Some || self.right is Some),
    {
        self.top.is_some() || self.left.is_some() || self.bottom.is_some() || self.right.is_some()
    }
}

impl Default for Edge {
    fn default() -> (e: Edge)
        ensures
            e.top is None,
            e.left is None,
            e.bottom is None,
            e.right is None,
    {
        Edge::new()
    }
}

/// The value stored for `key` in a list of (key, value) entries: that of the first
/// entry with that key.
pub open spec fn entry_value(entries: Seq<(String, String)>, key: Seq<char>) -> Option<Seq<char>>
    decreases entries.len(),
{
    if entries.len() == 0 {
        None
    } else if entries[0].0@ == key {
        Some(entries[0].1@)
    } else {
        entry_value(entries.drop_first(), key)
    }
}

/// Stores `value` under `key` in a list of entries: the first entry with that key gets
/// the new value, and when there is none the pair is added at the end.
pub fn put_entry(entries: &mut Vec<(String, String)>, key: String, value: String)
    ensures
        entry_value(final(entries)@, key@) == Some(value@),
        forall|k: Seq<char>| k != key@ ==> entry_value(final(entries)@, k) == entry_value(old(entries)@, k),
{
    let ghost old_entries = entries@;
    let mut i: usize = 0;
    while i < entries.len()
        invariant
            i <= entries.len(),
            entries@ == old_entries,
            old_entries == old(entries)@,
            forall|q: int| 0 <= q < i ==> (#[trigger] entries@[q]).0@ != key@,
        decreases entries.len() - i,
    {
        if same_text(entries[i].0.as_str(), key.as_str()) {
            proof {
                lemma_entry_value_skip(old_entries, i as int, key@);
            }
            let ghost e = (key, value);
            entries.set(i, (key, value));
            proof {
                lemma_entry_value_set(old_entries, i as int, e);
                assert(entries@ == old_entries.update(i as int, e));
            }
            return;
        }
        i = i + 1;
    }
    let ghost e = (key, value);
    entries.push((key, value));
    proof {
        lemma_entry_value_push(old_entries, e);
        assert(entries@ == old_entries.push(e));
    }
}

/// The value stored for `key`.
pub fn get_entry<'a>(entries: &'a Vec<(String, String)>, key: &str) -> (r: Option<&'a String>)
    ensures
        match r {
            Some(v) => entry_value(entries@, key@) == Some(v@),
            None => entry_value(entries@, key@) is None,
        },
{
    let mut i: usize = 0;
    while i < entries.len()
        invariant
            i <= entries.len(),
            forall|q: int| 0 <= q < i ==> (#[trigger] entries@[q]).0@ != key@,
        decreases entries.len() - i,
    {
        if same_text(entries[i].0.as_str(), key) {
            proof {
                lemma_entry_value_skip(entries@, i as int, key@);
            }
            return Some(&entries[i].1);
        }
        i = i + 1;
    }
    proof {
        lemma_entry_value_skip(entries@, i as int, key@);
    }
    None
}

/// Entries before `i` with other keys do not change what `key` finds.
proof fn lemma_entry_value_skip(entries: Seq<(String, String)>, i: int, key: Seq<char>)
    requires
        0 <= i <= entries.len(),
        forall|q: int| 0 <= q < i ==> (#[trigger] entries[q]).0@ != key,
    ensures
        entry_value(entries, key) == (if i < entries.len() && entries[i].0@ == key {
            Some(entries[i].1@)
        } else {
            entry_value(entries.skip(i), key)
        }),
    decreases i,
{
    if i > 0 {
        lemma_entry_value_skip(entries.drop_first(), i - 1, key);
        assert(entries.drop_first().skip(i - 1) =~= entries.skip(i));
    } else {
        assert(entries.skip(0) =~= entries);
    }
}

proof fn lemma_entry_value_set(entries: Seq<(String, String)>, i: int, e: (String, String))
    requires
        0 <= i < entries.len(),
        entries[i].0@ == e.0@,
        forall|q: int| 0 <= q < i ==> (#[trigger] entries[q]).0@ != e.0@,
    ensures
        entry_value(entries.update(i, e), e.0@) == Some(e.1@),
        forall|k: Seq<char>| k != e.0@ ==> entry_value(entries.update(i, e), k) == entry_value(entries, k),
    decreases i,
{
    let u = entries.update(i, e);
    if i == 0 {
        assert(u.drop_first() =~= entries.drop_first());
        assert forall|k: Seq<char>| k != e.0@ implies entry_value(u, k) == entry_value(entries, k) by {
            assert(u[0].0@ != k);
            assert(entries[0].0@ != k);
        }
    } else {
        lemma_entry_value_set(entries.drop_first(), i - 1, e);
        assert(u.drop_first() =~= entries.drop_first().update(i - 1, e));
        assert(u[0] == entries[0]);
        assert forall|k: Seq<char>| k != e.0@ implies entry_value(u, k) == entry_value(entries, k) by {
            if entries[0].0@ != k {
                assert(entry_value(u, k) == entry_value(u.drop_first(), k));
                assert(entry_value(entries.drop_first().update(i - 1, e), k) == entry_value(entries.drop_first(), k));
                assert(entry_value(entries, k) == entry_value(entries.drop_first(), k));
            } else {
                assert(u[0].0@ == k);
            }
        }
    }
}

proof fn lemma_entry_value_push(entries: Seq<(String, String)>, e: (String, String))
    requires
        forall|q: int| 0 <= q < entries.len() ==> (#[trigger] entries[q]).0@ != e.0@,
    ensures
        entry_value(entries.push(e), e.0@) == Some(e.1@),
        forall|k: Seq<char>| k != e.0@ ==> entry_value(entries.push(e), k) == entry_value(entries, k),
    decreases entries.len(),
{
    let u = entries.push(e);
    if entries.len() > 0 {
        lemma_entry_value_push(entries.drop_first(), e);
        assert(u.drop_first() =~= entries.drop_first().push(e));
        assert(u[0] == entries[0]);
        assert forall|k: Seq<char>| k != e.0@ implies entry_value(u, k) == entry_value(entries, k) by {
            if entries[0].0@ != k {
                assert(entry_value(u, k) == entry_value(u.drop_first(), k));
                assert(entry_value(entries.drop_first().push(e), k) == entry_value(entries.drop_first(), k));
                assert(entry_value(entries, k) == entry_value(entries.drop_first(), k));
            } else {
                assert(u[0].0@ == k);
            }
        }
    } else {
        assert(u.drop_first() =~= Seq::<(String, String)>::empty());
        assert forall|k: Seq<char>| k != e.0@ implies entry_value(u, k) == entry_value(entries, k) by {
            assert(entry_value(u, k) == entry_value(u.drop_first(), k));
        }
    }
}

/// Who sends a request.
#[derive(Debug)]
pub struct ClientInfo {
    pub id: String,
    pub name: Option<String>,
    pub version: Option<String>,
    pub platform: Option<String>,
    /// Further facts about the client, by key.
    pub metadata: Vec<(String, String)>,
}

impl ClientInfo {
    /// A client known by its id alone.
    pub fn new(id: String) -> (c: ClientInfo)
        ensures
            c.id == id,
            c.name is None,
            c.version is None,
            c.platform is None,
            c.metadata@.len() == 0,
    {
        ClientInfo { id, name: None, version: None, platform: None, metadata: Vec::new() }
    }

    /// A client with its name, version and platform.
    pub fn with_details(id: String, name: Option<String>, version: Option<String>, platform: Option<String>) -> (c: ClientInfo)
        ensures
            c.id == id,
            c.name == name,
            c.version == version,
            c.platform == platform,
            c.metadata@.len() == 0,
    {
        ClientInfo { id, name, version, platform, metadata: Vec::new() }
    }

    /// Stores `value` under `key`, in place of what was stored there.
    pub fn add_metadata(&mut self, key: String, value: String)
        ensures
            entry_value(final(self).metadata@, key@) == Some(value@),
            forall|k: Seq<char>| k != key@ ==> entry_value(final(self).metadata@, k) == entry_value(old(self).metadata@, k),
            final(self).id == old(self).id,
            final(self).name == old(self).name,
            final(self).version == old(self).version,
            final(self).platform == old(self).platform,
    {
        put_entry(&mut self.metadata, key, value);
    }

    /// The value stored under `key`, if any.
    pub fn get_metadata(&self, key: &str) -> (r: Option<&String>)
        ensures
            match r {
                Some(v) => entry_value(self.metadata@, key@) == Some(v@),
                None => entry_value(self.metadata@, key@) is None,
            },
    {
        get_entry(&self.metadata, key)
    }
}

/// Limits of the service.
#[derive(Debug, Clone, Copy)]
pub struct PerformanceThresholds {
    pub max_simultaneous_threads: usize,
    /// Milliseconds between checks of the running threads.
    pub thread_check_interval: u64,
    pub max_simultaneous_tasks: usize,
}

impl PerformanceThresholds {
    /// Five threads, a check each second, two tasks per client.
    pub fn default() -> (t: PerformanceThresholds)
        ensures
            t.max_simultaneous_threads == 5,
            t.thread_check_interval == 1000,
            t.max_simultaneous_tasks == 2,
    {
        PerformanceThresholds { max_simultaneous_threads: 5, thread_check_interval: 1000, max_simultaneous_tasks: 2 }
    }

    /// The given limits.
    pub fn new(max_simultaneous_threads: usize, thread_check_interval: u64, max_simultaneous_tasks: usize) -> (t: PerformanceThresholds)
        ensures
            t.max_simultaneous_threads == max_simultaneous_threads,
            t.thread_check_interval == thread_check_interval,
            t.max_simultaneous_tasks == max_simultaneous_tasks,
    {
        PerformanceThresholds { max_simultaneous_threads, thread_check_interval, max_simultaneous_tasks }
    }
}

} // verus!
