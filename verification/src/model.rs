//! The data the controller reports: proxy records with their delay history.
//!
//! `Proxies::from_value` reads a parsed JSON document into records, exactly
//! as the `spec_*` functions here state: the document is an object whose
//! `proxies` member is an object of entries, read as a map — of duplicate
//! keys only the later survives, within a record and among the entries
//! alike.  Each surviving entry must carry `history`, `name`, `type` and
//! `udp` with the right kinds; unknown fields are ignored, and delays must
//! fit in 32 bits.  Anything else makes the whole body count as malformed.

use vstd::prelude::*;

use crate::json::{arr_view, obj_view, parse_json, spec_parse_text, Json, JsonV};
use crate::order::{insert_sorted, lemma_sort_rows, row_view, sort_rows, sorted_rows, str_eq, Row, RowV};

verus! {

/// One delay measurement: when it was taken and what it measured.
#[derive(Debug, Clone, PartialEq)]
pub struct History {
    pub time: String,
    pub delay: i32,
    pub mean_delay: i32,
}

/// The mathematical form of a `History`.
pub struct HistoryV {
    pub time: Seq<char>,
    pub delay: int,
    pub mean_delay: int,
}

/// One proxy entry: its name, its type tag, whether it can carry UDP, and
/// its delay history.
#[derive(Debug, Clone, PartialEq)]
pub struct Proxy {
    pub history: Vec<History>,
    pub name: String,
    pub proxy_type: String,
    pub udp: bool,
}

/// The mathematical form of a `Proxy`.
pub struct ProxyV {
    pub history: Seq<HistoryV>,
    pub name: Seq<char>,
    pub proxy_type: Seq<char>,
    pub udp: bool,
}

/// Everything one successful fetch reported, one record per proxy, in the
/// order the response body listed them.
#[derive(Debug, Clone, PartialEq)]
pub struct Proxies {
    pub records: Vec<Proxy>,
}

impl View for History {
    type V = HistoryV;

    open spec fn view(&self) -> HistoryV {
        HistoryV { time: self.time@, delay: self.delay as int, mean_delay: self.mean_delay as int }
    }
}

/// The views of a sequence of measurements.
pub open spec fn hist_view(s: Seq<History>) -> Seq<HistoryV> {
    Seq::new(
        s.len(),
        |k: int|
            if 0 <= k < s.len() {
                s[k]@
            } else {
                HistoryV { time: Seq::empty(), delay: 0, mean_delay: 0 }
            },
    )
}

impl View for Proxy {
    type V = ProxyV;

    open spec fn view(&self) -> ProxyV {
        ProxyV {
            history: hist_view(self.history@),
            name: self.name@,
            proxy_type: self.proxy_type@,
            udp: self.udp,
        }
    }
}

/// The views of a sequence of records.
pub open spec fn rec_view(s: Seq<Proxy>) -> Seq<ProxyV> {
    Seq::new(
        s.len(),
        |k: int|
            if 0 <= k < s.len() {
                s[k]@
            } else {
                ProxyV { history: Seq::empty(), name: Seq::empty(), proxy_type: Seq::empty(), udp: false }
            },
    )
}

impl View for Proxies {
    type V = Seq<ProxyV>;

    open spec fn view(&self) -> Seq<ProxyV> {
        rec_view(self.records@)
    }
}

impl Default for Proxies {
    /// A fresh, empty collection, as the client holds before any fetch.
    fn default() -> (r: Proxies)
        ensures
            r@ == Seq::<ProxyV>::empty(),
    {
        let records: Vec<Proxy> = Vec::new();
        proof {
            assert(rec_view(records@) =~= Seq::<ProxyV>::empty());
        }
        Proxies { records }
    }
}

/// The value of the field named `key` in an object's members; a later
/// duplicate wins, as it does in a JSON object read as a map.
pub open spec fn spec_lookup(members: Seq<(Seq<char>, JsonV)>, key: Seq<char>) -> Option<JsonV>
    decreases members.len(),
{
    if members.len() == 0 {
        None
    } else if members.last().0 == key {
        Some(members.last().1)
    } else {
        spec_lookup(members.drop_last(), key)
    }
}

/// What one element of a `history` array must look like.
pub open spec fn spec_sample(j: JsonV) -> Option<HistoryV> {
    match j {
        JsonV::Obj(ms) => match (
            spec_lookup(ms, "time"@),
            spec_lookup(ms, "delay"@),
            spec_lookup(ms, "meanDelay"@),
        ) {
            (Some(JsonV::Str(t)), Some(JsonV::Int(d)), Some(JsonV::Int(md))) => {
                if i32::MIN <= d <= i32::MAX && i32::MIN <= md <= i32::MAX {
                    Some(HistoryV { time: t, delay: d, mean_delay: md })
                } else {
                    None
                }
            },
            _ => None,
        },
        _ => None,
    }
}

/// The measurements of a whole `history` array in order, or `None` if any
/// element is not a well-formed sample.
pub open spec fn spec_samples(items: Seq<JsonV>) -> Option<Seq<HistoryV>>
    decreases items.len(),
{
    if items.len() == 0 {
        Some(Seq::empty())
    } else {
        match (spec_sample(items.first()), spec_samples(items.drop_first())) {
            (Some(h), Some(hs)) => Some(seq![h] + hs),
            _ => None,
        }
    }
}

/// What one proxy entry must look like: `history`, `name`, `type` and
/// `udp`, each of the right kind; other fields are ignored.
pub open spec fn spec_record(j: JsonV) -> Option<ProxyV> {
    match j {
        JsonV::Obj(ms) => match (
            spec_lookup(ms, "history"@),
            spec_lookup(ms, "name"@),
            spec_lookup(ms, "type"@),
            spec_lookup(ms, "udp"@),
        ) {
            (Some(JsonV::Arr(items)), Some(JsonV::Str(nm)), Some(JsonV::Str(ty)), Some(
                JsonV::Bool(u),
            )) => match spec_samples(items) {
                Some(hs) => Some(ProxyV { history: hs, name: nm, proxy_type: ty, udp: u }),
                _ => None,
            },
            _ => None,
        },
        _ => None,
    }
}

/// Whether some member of `entries` has the key.
pub open spec fn contains_key(entries: Seq<(Seq<char>, JsonV)>, key: Seq<char>) -> bool {
    exists|k: int| 0 <= k < entries.len() && entries[k].0 == key
}

/// The members that survive reading the object as a map: of entries with
/// the same key only the last remains, where it stood.
pub open spec fn surviving(entries: Seq<(Seq<char>, JsonV)>) -> Seq<(Seq<char>, JsonV)>
    decreases entries.len(),
{
    if entries.len() == 0 {
        Seq::empty()
    } else if contains_key(entries.drop_first(), entries.first().0) {
        surviving(entries.drop_first())
    } else {
        seq![entries.first()] + surviving(entries.drop_first())
    }
}

/// The records of a run of members, one per member in order, or `None` if
/// any member is not a well-formed proxy entry.
pub open spec fn spec_records(entries: Seq<(Seq<char>, JsonV)>) -> Option<Seq<ProxyV>>
    decreases entries.len(),
{
    if entries.len() == 0 {
        Some(Seq::empty())
    } else {
        match (spec_record(entries.first().1), spec_records(entries.drop_first())) {
            (Some(r), Some(rs)) => Some(seq![r] + rs),
            _ => None,
        }
    }
}

/// What a whole response document must look like: an object whose
/// `proxies` member is an object, read as a map, of proxy entries.
pub open spec fn spec_from_value(j: JsonV) -> Option<Seq<ProxyV>> {
    match j {
        JsonV::Obj(ms) => match spec_lookup(ms, "proxies"@) {
            Some(JsonV::Obj(entries)) => spec_records(surviving(entries)),
            _ => None,
        },
        _ => None,
    }
}

/// The records a response body text yields: the text must match the JSON
/// grammar and the document must have the response's shape.
pub open spec fn spec_from_text(s: Seq<char>) -> Option<Seq<ProxyV>> {
    match spec_parse_text(s) {
        Some(j) => spec_from_value(j),
        None => None,
    }
}

/// Finds the value of the field named `key`, taking a later duplicate over
/// an earlier one, as `spec_lookup` says.
fn lookup<'a>(members: &'a Vec<(String, Json)>, key: &str) -> (r: Option<&'a Json>)
    ensures
        match r {
            Some(j) => spec_lookup(obj_view(members@), key@) == Some(j@),
            None => spec_lookup(obj_view(members@), key@) is None,
        },
{
    let ghost whole = obj_view(members@);
    let mut idx: usize = members.len();
    proof {
        assert(whole.subrange(0, idx as int) =~= whole);
    }
    while idx > 0
        invariant
            idx <= members@.len(),
            whole == obj_view(members@),
            spec_lookup(whole.subrange(0, idx as int), key@) == spec_lookup(whole, key@),
        decreases idx,
    {
        if str_eq(members[idx - 1].0.as_str(), key) {
            return Some(&members[idx - 1].1);
        }
        proof {
            assert(whole.subrange(0, idx as int).drop_last() =~= whole.subrange(
                0,
                idx as int - 1,
            ));
        }
        idx = idx - 1;
    }
    proof {
        assert(whole.subrange(0, 0) =~= Seq::<(Seq<char>, JsonV)>::empty());
    }
    None
}

/// Reads one element of a `history` array, as `spec_sample` says.
fn sample_of(j: &Json) -> (r: Option<History>)
    ensures
        match r {
            Some(h) => spec_sample(j@) == Some(h@),
            None => spec_sample(j@) is None,
        },
{
    match j {
        Json::Obj(ms) => {
            let t = lookup(ms, "time");
            let d = lookup(ms, "delay");
            let md = lookup(ms, "meanDelay");
            match (t, d, md) {
                (Some(Json::Str(time)), Some(Json::Int(delay)), Some(Json::Int(mean))) => {
                    let dv: i64 = *delay;
                    let mv: i64 = *mean;
                    if i32::MIN as i64 <= dv && dv <= i32::MAX as i64 && i32::MIN as i64 <= mv
                        && mv <= i32::MAX as i64 {
                        Some(
                            History {
                                time: time.clone(),
                                delay: dv as i32,
                                mean_delay: mv as i32,
                            },
                        )
                    } else {
                        None
                    }
                },
                _ => None,
            }
        },
        _ => None,
    }
}

/// Reads a whole `history` array, as `spec_samples` says, one loop
/// iteration per element.
fn samples_of(items: &Vec<Json>) -> (r: Option<Vec<History>>)
    ensures
        match r {
            Some(out) => spec_samples(arr_view(items@)) == Some(hist_view(out@)),
            None => spec_samples(arr_view(items@)) is None,
        },
{
    let ghost full = arr_view(items@);
    let ghost target = spec_samples(full);
    let mut out: Vec<History> = Vec::new();
    let mut i: usize = 0;
    proof {
        assert(full.skip(0) =~= full);
        assert(hist_view(out@) =~= Seq::<HistoryV>::empty());
        if spec_samples(full) is Some {
            assert(hist_view(out@) + spec_samples(full).unwrap() =~= spec_samples(
                full,
            ).unwrap());
        }
    }
    while i < items.len()
        invariant
            i <= items@.len(),
            full == arr_view(items@),
            target == spec_samples(full),
            match spec_samples(full.skip(i as int)) {
                Some(rest) => target == Some(hist_view(out@) + rest),
                None => target is None,
            },
        decreases items@.len() - i,
    {
        proof {
            assert(full.skip(i as int).first() == full[i as int]);
            assert(full.skip(i as int).drop_first() =~= full.skip(i as int + 1));
        }
        match sample_of(&items[i]) {
            Some(h) => {
                let ghost o0 = out@;
                let ghost hv = h@;
                out.push(h);
                proof {
                    assert(hist_view(out@) =~= hist_view(o0).push(hv));
                    if spec_samples(full.skip(i as int + 1)) is Some {
                        let rest = spec_samples(full.skip(i as int + 1)).unwrap();
                        assert(hist_view(o0) + (seq![hv] + rest) =~= hist_view(o0).push(hv)
                            + rest);
                    }
                }
            },
            None => {
                return None;
            },
        }
        i = i + 1;
    }
    proof {
        assert(full.skip(items@.len() as int) =~= Seq::<JsonV>::empty());
        assert(hist_view(out@) + Seq::<HistoryV>::empty() =~= hist_view(out@));
    }
    Some(out)
}

/// Reads one proxy entry, as `spec_record` says.
fn record_of(j: &Json) -> (r: Option<Proxy>)
    ensures
        match r {
            Some(p) => spec_record(j@) == Some(p@),
            None => spec_record(j@) is None,
        },
{
    match j {
        Json::Obj(ms) => {
            let h = lookup(ms, "history");
            let n = lookup(ms, "name");
            let t = lookup(ms, "type");
            let u = lookup(ms, "udp");
            match (h, n, t, u) {
                (Some(Json::Arr(items)), Some(Json::Str(name)), Some(Json::Str(ty)), Some(
                    Json::Bool(udp),
                )) => {
                    match samples_of(items) {
                        Some(hs) => Some(
                            Proxy {
                                history: hs,
                                name: name.clone(),
                                proxy_type: ty.clone(),
                                udp: *udp,
                            },
                        ),
                        None => None,
                    }
                },
                _ => None,
            }
        },
        _ => None,
    }
}

/// Whether a member at or after `from` has the key.
fn key_in(entries: &Vec<(String, Json)>, from: usize, key: &str) -> (r: bool)
    requires
        from <= entries@.len(),
    ensures
        r == contains_key(obj_view(entries@).skip(from as int), key@),
{
    let ghost tail = obj_view(entries@).skip(from as int);
    let mut j: usize = from;
    while j < entries.len()
        invariant
            from <= j <= entries@.len(),
            tail == obj_view(entries@).skip(from as int),
            forall|k: int| 0 <= k < j - from ==> tail[k].0 != key@,
        decreases entries@.len() - j,
    {
        if str_eq(entries[j].0.as_str(), key) {
            proof {
                assert(tail[j - from as int].0 == key@);
            }
            return true;
        }
        j = j + 1;
    }
    proof {
        assert(!contains_key(tail, key@)) by {
            assert(forall|k: int| 0 <= k < tail.len() ==> tail[k].0 != key@);
        }
    }
    false
}

/// Reads the `proxies` object as a map, as `spec_records` of its
/// `surviving` members says: a member overwritten by a later one with the
/// same key is skipped unread; each survivor must be a well-formed entry.
fn records_of(entries: &Vec<(String, Json)>) -> (r: Option<Vec<Proxy>>)
    ensures
        match r {
            Some(out) => spec_records(surviving(obj_view(entries@))) == Some(rec_view(out@)),
            None => spec_records(surviving(obj_view(entries@))) is None,
        },
{
    let ghost full = obj_view(entries@);
    let ghost target = spec_records(surviving(full));
    let mut out: Vec<Proxy> = Vec::new();
    let mut i: usize = 0;
    proof {
        assert(full.skip(0) =~= full);
        assert(rec_view(out@) =~= Seq::<ProxyV>::empty());
        if spec_records(surviving(full)) is Some {
            assert(rec_view(out@) + spec_records(surviving(full)).unwrap() =~= spec_records(
                surviving(full),
            ).unwrap());
        }
    }
    while i < entries.len()
        invariant
            i <= entries@.len(),
            full == obj_view(entries@),
            target == spec_records(surviving(full)),
            match spec_records(surviving(full.skip(i as int))) {
                Some(rest) => target == Some(rec_view(out@) + rest),
                None => target is None,
            },
        decreases entries@.len() - i,
    {
        proof {
            assert(full.skip(i as int).first() == full[i as int]);
            assert(full.skip(i as int).drop_first() =~= full.skip(i as int + 1));
        }
        if key_in(entries, i + 1, entries[i].0.as_str()) {
            proof {
                assert(surviving(full.skip(i as int)) == surviving(full.skip(i as int + 1)));
            }
        } else {
            proof {
                assert(surviving(full.skip(i as int)) == seq![full[i as int]] + surviving(
                    full.skip(i as int + 1),
                ));
                assert((seq![full[i as int]] + surviving(full.skip(i as int + 1))).first()
                    == full[i as int]);
                assert((seq![full[i as int]] + surviving(full.skip(i as int + 1))).drop_first()
                    =~= surviving(full.skip(i as int + 1)));
            }
            match record_of(&entries[i].1) {
                Some(p) => {
                    let ghost o0 = out@;
                    let ghost pv = p@;
                    out.push(p);
                    proof {
                        assert(rec_view(out@) =~= rec_view(o0).push(pv));
                        if spec_records(surviving(full.skip(i as int + 1))) is Some {
                            let rest = spec_records(
                                surviving(full.skip(i as int + 1)),
                            ).unwrap();
                            assert(rec_view(o0) + (seq![pv] + rest) =~= rec_view(o0).push(pv)
                                + rest);
                        }
                    }
                },
                None => {
                    return None;
                },
            }
        }
        i = i + 1;
    }
    proof {
        assert(full.skip(entries@.len() as int) =~= Seq::<(Seq<char>, JsonV)>::empty());
        assert(rec_view(out@) + Seq::<ProxyV>::empty() =~= rec_view(out@));
    }
    Some(out)
}

impl Proxies {
    /// Reads a parsed response document into the collection it describes,
    /// or `None` where the document does not have the response's shape.
    pub fn from_value(json: Json) -> (r: Option<Proxies>)
        ensures
            match r {
                Some(p) => spec_from_value(json@) == Some(p@),
                None => spec_from_value(json@) is None,
            },
    {
        match &json {
            Json::Obj(ms) => {
                match lookup(ms, "proxies") {
                    Some(Json::Obj(entries)) => {
                        match records_of(entries) {
                            Some(records) => Some(Proxies { records }),
                            None => None,
                        }
                    },
                    _ => None,
                }
            },
            _ => None,
        }
    }

    /// Reads a response body text: parses it against the grammar and then
    /// reads the document, returning `None` for any malformed body.
    pub fn from_response(text: &str) -> (r: Option<Proxies>)
        ensures
            match r {
                Some(p) => spec_from_text(text@) == Some(p@),
                None => spec_from_text(text@) is None,
            },
    {
        match parse_json(text) {
            Some(j) => Proxies::from_value(j),
            None => None,
        }
    }
}

/// The row a record displays: its name and its type tag.
pub open spec fn spec_row(p: ProxyV) -> RowV {
    RowV { name: p.name, proxy_type: p.proxy_type }
}

/// The rows of a collection, one per record, in storage order.
pub open spec fn rows_of(s: Seq<ProxyV>) -> Seq<RowV> {
    Seq::new(
        s.len(),
        |k: int|
            if 0 <= k < s.len() {
                spec_row(s[k])
            } else {
                RowV { name: Seq::empty(), proxy_type: Seq::empty() }
            },
    )
}

impl Proxy {
    /// The one row this record shows.
    pub fn render(&self) -> (r: Row)
        ensures
            r@ == spec_row(self@),
    {
        Row { name: self.name.clone(), proxy_type: self.proxy_type.clone() }
    }
}

impl Proxies {
    /// The rows of the results list, in display order: ascending by the
    /// composite key (type tag, name).
    pub fn render(&self) -> (r: Vec<Row>)
        ensures
            row_view(r@) == sort_rows(rows_of(self@)),
    {
        let mut out: Vec<Row> = Vec::new();
        proof {
            assert(row_view(out@) =~= Seq::<RowV>::empty());
            assert(rows_of(self@).subrange(0, 0) =~= Seq::<RowV>::empty());
        }
        let mut idx: usize = 0;
        while idx < self.records.len()
            invariant
                idx <= self.records@.len(),
                self@.len() == self.records@.len(),
                row_view(out@) == sort_rows(rows_of(self@).subrange(0, idx as int)),
            decreases self.records@.len() - idx,
        {
            let row = self.records[idx].render();
            insert_sorted(&mut out, row);
            proof {
                let pre = rows_of(self@).subrange(0, idx as int);
                let post = rows_of(self@).subrange(0, idx as int + 1);
                assert(post.drop_last() =~= pre);
                assert(post.last() == spec_row(self@[idx as int]));
            }
            idx = idx + 1;
        }
        proof {
            assert(rows_of(self@).subrange(0, self.records@.len() as int) =~= rows_of(self@));
        }
        out
    }
}

/// The rendered rows of any collection are its records' rows, in display
/// order: rendering permutes nothing away and sorts ascending by the
/// composite key (type tag, name).
pub proof fn lemma_render_order(s: Seq<ProxyV>)
    ensures
        sorted_rows(sort_rows(rows_of(s))),
        sort_rows(rows_of(s)).to_multiset() == rows_of(s).to_multiset(),
        sort_rows(rows_of(s)).len() == rows_of(s).len(),
{
    lemma_sort_rows(rows_of(s));
}

} // verus!
