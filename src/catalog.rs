use vstd::prelude::*;
use vstd::slice::slice_subrange;

use crate::text::{
    chars_of, decimal_of, text_opt, lemma_split_nonempty, parse_decimal, split_chars, split_on, string_from_chars, views,
};

verus! {

/// A transit stop: its known spellings, its stable identifier and the section
/// of the line it lies on.
#[derive(Debug, Clone, PartialEq, Eq)]
pub struct Stop {
    pub display_names: Vec<String>,
    pub stop_id: usize,
    pub section_id: usize,
}

/// The names, identifier and section of a stop.
pub type StopView = (Seq<Seq<char>>, usize, usize);

pub open spec fn names_view(names: Seq<String>) -> Seq<Seq<char>> {
    names.map_values(|n: String| n@)
}

impl View for Stop {
    type V = StopView;

    open spec fn view(&self) -> StopView {
        (names_view(self.display_names@), self.stop_id, self.section_id)
    }
}

/// The stops of the network, in the canonical order of the line.
#[derive(Debug, Clone, PartialEq, Eq)]
pub struct StopCatalog {
    pub stops: Vec<Stop>,
}

impl View for StopCatalog {
    type V = Seq<StopView>;

    open spec fn view(&self) -> Seq<StopView> {
        self.stops@.map_values(|s: Stop| s@)
    }
}

impl StopCatalog {
    /// Every stop has at least one display name.
    pub open spec fn wf(&self) -> bool {
        forall|i: int| 0 <= i < self@.len() ==> (#[trigger] self@[i]).0.len() > 0
    }
}

/// A stop identifier or section number: an unsigned decimal that fits in a `usize`.
pub open spec fn id_of(s: Seq<char>) -> Option<usize> {
    match decimal_of(s) {
        Some(v) => if v <= usize::MAX {
            Some(v as usize)
        } else {
            None
        },
        None => None,
    }
}

/// The stop described by one line of the network file: its comma-separated
/// display names, then its identifier, then its section.
pub open spec fn stop_of_line(line: Seq<char>) -> Option<StopView> {
    let fields = split_on(line, ',');
    let n = fields.len();
    if n < 3 {
        None
    } else {
        match (id_of(fields[n - 2]), id_of(fields[n - 1])) {
            (Some(id), Some(section)) => Some((fields.take(n - 2), id, section)),
            _ => None,
        }
    }
}

pub open spec fn strip_cr(l: Seq<char>) -> Seq<char> {
    if l.len() > 0 && l.last() == '\r' {
        l.drop_last()
    } else {
        l
    }
}

/// The lines of `text`: pieces between line feeds, each that a line feed ends
/// losing one trailing carriage return.
pub open spec fn lines_of(text: Seq<char>) -> Seq<Seq<char>> {
    let p = split_on(text, '\n');
    p.take(p.len() - 1).map_values(|l: Seq<char>| strip_cr(l)).push(p.last())
}

/// The stops described by `lines`, blank lines skipped, or the index of the
/// first line that describes none.
pub open spec fn stops_of_lines(lines: Seq<Seq<char>>) -> Result<Seq<StopView>, usize>
    decreases lines.len(),
{
    if lines.len() == 0 {
        Ok(Seq::empty())
    } else {
        match stops_of_lines(lines.drop_last()) {
            Err(e) => Err(e),
            Ok(stops) => if lines.last().len() == 0 {
                Ok(stops)
            } else {
                match stop_of_line(lines.last()) {
                    Some(s) => Ok(stops.push(s)),
                    None => Err((lines.len() - 1) as usize),
                }
            },
        }
    }
}

/// A line of the network file that describes no stop.
#[derive(Debug, PartialEq, Eq, Structural, Clone, Copy)]
pub struct NetworkError {
    /// Index of the line, counted from zero.
    pub line: usize,
}

fn id_from_chars(s: &[char]) -> (r: Option<usize>)
    ensures
        r == id_of(s@),
{
    match parse_decimal(s) {
        Some(v) => if v <= usize::MAX as u64 {
            Some(v as usize)
        } else {
            None
        },
        None => None,
    }
}

fn parse_stop_line(line: &[char]) -> (r: Option<Stop>)
    ensures
        match r {
            Some(s) => stop_of_line(line@) == Some(s@),
            None => stop_of_line(line@) is None,
        },
{
    let fields = split_chars(line, ',');
    let n = fields.len();
    let ghost fv = split_on(line@, ',');
    assert(fv.len() == n);
    if n < 3 {
        return None;
    }
    let id = id_from_chars(fields[n - 2].as_slice());
    let section = id_from_chars(fields[n - 1].as_slice());
    assert(fields@[n - 2]@ == fv[n - 2]);
    assert(fields@[n - 1]@ == fv[n - 1]);
    match (id, section) {
        (Some(id), Some(section)) => {
            let mut names: Vec<String> = Vec::new();
            let mut k: usize = 0;
            while k < n - 2
                invariant
                    n == fields@.len(),
                    n >= 3,
                    k <= n - 2,
                    views(fields@) == fv,
                    names_view(names@) == fv.take(k as int),
                decreases n - 2 - k,
            {
                let name = string_from_chars(fields[k].as_slice());
                let ghost before = names_view(names@);
                names.push(name);
                assert(fields@[k as int]@ == fv[k as int]);
                assert(names_view(names@) =~= before.push(fv[k as int]));
                assert(fv.take(k + 1) =~= fv.take(k as int).push(fv[k as int]));
                k = k + 1;
            }
            Some(Stop { display_names: names, stop_id: id, section_id: section })
        },
        _ => None,
    }
}

/// Reads the network file: one stop per non-blank line, each line being the
/// stop's comma-separated display names, then its identifier, then its
/// section number. Fails on the first line that does not have that shape.
pub fn parse_network(text: &str) -> (r: Result<StopCatalog, NetworkError>)
    ensures
        match stops_of_lines(lines_of(text@)) {
            Ok(stops) => r is Ok && r->Ok_0@ == stops,
            Err(e) => r == Err::<StopCatalog, NetworkError>(NetworkError { line: e }),
        },
{
    let chars = chars_of(text);
    let pieces = split_chars(chars.as_slice(), '\n');
    let ghost p = split_on(text@, '\n');
    let ghost lines = lines_of(text@);
    let n = pieces.len();
    proof {
        lemma_split_nonempty(text@, '\n');
    }
    assert(lines.len() == n);
    let mut stops: Vec<Stop> = Vec::new();
    let mut k: usize = 0;
    assert(lines.take(0) =~= Seq::<Seq<char>>::empty());
    assert(stops@.map_values(|s: Stop| s@) =~= Seq::<StopView>::empty());
    while k < n
        invariant
            n == pieces@.len(),
            k <= n,
            views(pieces@) == p,
            p == split_on(text@, '\n'),
            p.len() == n,
            lines == lines_of(text@),
            lines.len() == n,
            stops_of_lines(lines.take(k as int)) == Ok::<Seq<StopView>, usize>(
                stops@.map_values(|s: Stop| s@),
            ),
        decreases n - k,
    {
        let piece = pieces[k].as_slice();
        assert(piece@ == p[k as int]);
        let line: &[char] = if k + 1 < n && piece.len() > 0 && piece[piece.len() - 1] == '\r' {
            slice_subrange(piece, 0, piece.len() - 1)
        } else {
            piece
        };
        if k + 1 < n {
            assert(lines[k as int] == strip_cr(p[k as int]));
        } else {
            assert(lines[k as int] == p[k as int]);
        }
        assert(line@ =~= lines[k as int]);
        assert(lines.take(k + 1).drop_last() =~= lines.take(k as int));
        if line.len() > 0 {
            match parse_stop_line(line) {
                Some(stop) => {
                    let ghost before = stops@.map_values(|s: Stop| s@);
                    stops.push(stop);
                    assert(stops@.map_values(|s: Stop| s@) =~= before.push(stop@));
                },
                None => {
                    assert(lines.take(k + 1).drop_last() =~= lines.take(k as int));
                    proof {
                        lemma_stops_error_kept(lines, (k + 1) as int);
                    }
                    assert(lines.take(n as int) =~= lines);
                    return Err(NetworkError { line: k });
                },
            }
        }
        k = k + 1;
    }
    assert(lines.take(n as int) =~= lines);
    Ok(StopCatalog { stops })
}

/// Once a line fails, the lines after it do not change the outcome.
proof fn lemma_stops_error_kept(lines: Seq<Seq<char>>, k: int)
    requires
        0 <= k <= lines.len(),
        stops_of_lines(lines.take(k)) is Err,
    ensures
        stops_of_lines(lines) == stops_of_lines(lines.take(k)),
    decreases lines.len() - k,
{
    if k < lines.len() {
        assert(lines.take(k + 1).drop_last() =~= lines.take(k));
        lemma_stops_error_kept(lines, k + 1);
    } else {
        assert(lines.take(k) =~= lines);
    }
}

/// The edit distance between two strings, counted in characters.
pub uninterp spec fn levenshtein_of(a: Seq<char>, b: Seq<char>) -> usize;

/// Relies on `levenshtein::levenshtein`: the Levenshtein distance between the
/// characters of `a` and of `b`, which is zero exactly when they are equal.
#[verifier::external_body]
fn edit_distance(a: &str, b: &str) -> (r: usize)
    ensures
        r == levenshtein_of(a@, b@),
        (r == 0) == (a@ == b@),
{
    levenshtein::levenshtein(a, b)
}

/// Each display name of a stop, paired with the stop's identifier.
pub open spec fn stop_entries(s: StopView) -> Seq<(Seq<char>, usize)> {
    s.0.map_values(|n: Seq<char>| (n, s.1))
}

/// Every (display name, stop identifier) pair of the catalog, stop by stop.
pub open spec fn name_entries(stops: Seq<StopView>) -> Seq<(Seq<char>, usize)>
    decreases stops.len(),
{
    if stops.len() == 0 {
        Seq::empty()
    } else {
        name_entries(stops.drop_last()) + stop_entries(stops.last())
    }
}

/// Entry `k` is the one closest to `q` by edit distance, the first of those
/// equally close.
pub open spec fn is_closest(es: Seq<(Seq<char>, usize)>, q: Seq<char>, k: int) -> bool {
    &&& 0 <= k < es.len()
    &&& forall|j: int|
        0 <= j < es.len() ==> levenshtein_of(es[k].0, q) <= levenshtein_of(#[trigger] es[j].0, q)
    &&& forall|j: int|
        0 <= j < k ==> levenshtein_of(es[k].0, q) < levenshtein_of(#[trigger] es[j].0, q)
}

/// The stop that a place name resolves to: that of the closest entry.
pub open spec fn closest_stop(cat: Seq<StopView>, q: Seq<char>) -> Option<usize> {
    let es = name_entries(cat);
    if es.len() == 0 {
        None
    } else {
        Some(es[choose|k: int| is_closest(es, q, k)].1)
    }
}

proof fn lemma_closest_unique(es: Seq<(Seq<char>, usize)>, q: Seq<char>, k: int)
    requires
        is_closest(es, q, k),
    ensures
        (choose|j: int| is_closest(es, q, j)) == k,
{
    let c = choose|j: int| is_closest(es, q, j);
    assert(is_closest(es, q, c));
    if c < k {
        assert(levenshtein_of(es[k].0, q) < levenshtein_of(es[c].0, q));
        assert(levenshtein_of(es[c].0, q) <= levenshtein_of(es[k].0, q));
    }
    if k < c {
        assert(levenshtein_of(es[c].0, q) < levenshtein_of(es[k].0, q));
        assert(levenshtein_of(es[k].0, q) <= levenshtein_of(es[c].0, q));
    }
}

/// Some entry is spelled exactly `q`, and every such entry names stop `id`.
pub open spec fn spelled_only_by(es: Seq<(Seq<char>, usize)>, q: Seq<char>, id: usize) -> bool {
    &&& exists|k: int| 0 <= k < es.len() && (#[trigger] es[k]).0 == q
    &&& forall|k: int| 0 <= k < es.len() && (#[trigger] es[k]).0 == q ==> es[k].1 == id
}

/// `k` is the first position of a least value of `vs`.
pub open spec fn is_first_minimum(vs: Seq<usize>, k: int) -> bool {
    &&& 0 <= k < vs.len()
    &&& forall|j: int| 0 <= j < vs.len() ==> vs[k] <= #[trigger] vs[j]
    &&& forall|j: int| 0 <= j < k ==> vs[k] < #[trigger] vs[j]
}

/// The first position of a least value, or nothing for no values.
pub fn first_minimum(values: &[usize]) -> (r: Option<usize>)
    ensures
        match r {
            Some(k) => is_first_minimum(values@, k as int),
            None => values@.len() == 0,
        },
{
    if values.len() == 0 {
        return None;
    }
    let mut best: usize = 0;
    let mut i: usize = 1;
    while i < values.len()
        invariant
            1 <= i <= values@.len(),
            best < i,
            forall|j: int| 0 <= j < i ==> values@[best as int] <= #[trigger] values@[j],
            forall|j: int| 0 <= j < best ==> values@[best as int] < #[trigger] values@[j],
        decreases values@.len() - i,
    {
        if values[i] < values[best] {
            best = i;
        }
        i = i + 1;
    }
    Some(best)
}

/// Resolves a spoken place name to the stop whose display name is closest to
/// it; the first such name in catalog order wins a tie. Any name resolves as
/// long as the catalog holds a name at all.
pub fn get_stop_id(catalog: &StopCatalog, name: &str) -> (r: Option<usize>)
    ensures
        r == closest_stop(catalog@, name@),
        r is None <==> name_entries(catalog@).len() == 0,
        catalog.wf() && catalog@.len() > 0 ==> r is Some,
        forall|id: usize| spelled_only_by(name_entries(catalog@), name@, id) ==> r == Some(id),
{
    let ghost cat = catalog@;
    let ghost q = name@;
    let ghost mut done: Seq<(Seq<char>, usize)> = Seq::empty();
    let mut ids: Vec<usize> = Vec::new();
    let mut distances: Vec<usize> = Vec::new();
    let n = catalog.stops.len();
    let mut i: usize = 0;
    assert(cat.take(0) =~= Seq::<StopView>::empty());
    while i < n
        invariant
            cat == catalog@,
            q == name@,
            n == cat.len(),
            i <= n,
            done == name_entries(cat.take(i as int)),
            ids@.len() == done.len(),
            distances@.len() == done.len(),
            forall|t: int|
                0 <= t < done.len() ==> ids@[t] == (#[trigger] done[t]).1 && distances@[t]
                    == levenshtein_of(done[t].0, q) && (distances@[t] == 0) == (done[t].0 == q),
        decreases n - i,
    {
        let stop = &catalog.stops[i];
        let ghost sv = cat[i as int];
        assert(stop@ == sv);
        let ghost base = done;
        let m = stop.display_names.len();
        let mut j: usize = 0;
        assert(stop_entries(sv).take(0) =~= Seq::<(Seq<char>, usize)>::empty());
        assert(done =~= base + stop_entries(sv).take(0));
        while j < m
            invariant
                cat == catalog@,
                q == name@,
                n == cat.len(),
                i < n,
                sv == cat[i as int],
                stop@ == sv,
                m == sv.0.len(),
                j <= m,
                done == base + stop_entries(sv).take(j as int),
                ids@.len() == done.len(),
                distances@.len() == done.len(),
                forall|t: int|
                    0 <= t < done.len() ==> ids@[t] == (#[trigger] done[t]).1 && distances@[t]
                        == levenshtein_of(done[t].0, q) && (distances@[t] == 0) == (done[t].0
                        == q),
            decreases m - j,
        {
            let d = edit_distance(stop.display_names[j].as_str(), name);
            let ghost e = (sv.0[j as int], sv.1);
            assert(stop.display_names@[j as int]@ == sv.0[j as int]);
            assert(stop_entries(sv).take(j + 1) =~= stop_entries(sv).take(j as int).push(e));
            let ghost prev = done;
            proof {
                done = done.push(e);
            }
            ids.push(stop.stop_id);
            distances.push(d);
            assert(done =~= base + stop_entries(sv).take(j + 1));
            assert(forall|t: int| 0 <= t < prev.len() ==> #[trigger] done[t] == prev[t]);
            j = j + 1;
        }
        assert(stop_entries(sv).take(m as int) =~= stop_entries(sv));
        assert(cat.take(i + 1).drop_last() =~= cat.take(i as int));
        i = i + 1;
    }
    assert(cat.take(n as int) =~= cat);
    let best = first_minimum(distances.as_slice());
    proof {
        if catalog.wf() && cat.len() > 0 {
            assert(cat.last().0.len() > 0);
            assert(stop_entries(cat.last()).len() > 0);
        }
    }
    match best {
        Some(k) => {
            proof {
                assert forall|t: int| 0 <= t < done.len() implies levenshtein_of(done[k as int].0, q)
                    <= levenshtein_of(#[trigger] done[t].0, q) by {
                    assert(distances@[k as int] <= distances@[t]);
                }
                assert forall|t: int| 0 <= t < k implies levenshtein_of(done[k as int].0, q)
                    < levenshtein_of(#[trigger] done[t].0, q) by {
                    assert(distances@[k as int] < distances@[t]);
                }
                assert(is_closest(done, q, k as int));
                lemma_closest_unique(done, q, k as int);
                assert forall|id: usize| spelled_only_by(done, q, id) implies ids@[k as int]
                    == id by {
                    let x = choose|x: int| 0 <= x < done.len() && (#[trigger] done[x]).0 == q;
                    assert(distances@[x] == 0);
                    assert(distances@[k as int] <= distances@[x]);
                    assert(done[k as int].0 == q);
                }
            }
            Some(ids[k])
        },
        None => None,
    }
}

/// Direction token for trips that go down the line, from the north end.
pub const SOUTHBOUND: usize = 1;

/// Direction token for trips that go up the line, toward the north end.
pub const NORTHBOUND: usize = 2;

/// The direction that the line's topology fixes for a trip between two
/// sections: from the trunk (section 1) to either branch (2 or 3) and between
/// the branches the tram runs southbound, from a branch to the trunk
/// northbound. Other pairs are left to the stops' order.
pub open spec fn section_rule(from_section: usize, to_section: usize) -> Option<usize> {
    if from_section == 1 && (to_section == 2 || to_section == 3) {
        Some(SOUTHBOUND)
    } else if (from_section == 2 || from_section == 3) && to_section == 1 {
        Some(NORTHBOUND)
    } else if (from_section == 2 && to_section == 3) || (from_section == 3 && to_section == 2) {
        Some(SOUTHBOUND)
    } else {
        None
    }
}

/// The direction that the topology fixes between two sections, if it does.
pub fn section_direction(from_section: usize, to_section: usize) -> (r: Option<usize>)
    ensures
        r == section_rule(from_section, to_section),
{
    if from_section == 1 && (to_section == 2 || to_section == 3) {
        Some(SOUTHBOUND)
    } else if (from_section == 2 || from_section == 3) && to_section == 1 {
        Some(NORTHBOUND)
    } else if (from_section == 2 && to_section == 3) || (from_section == 3 && to_section == 2) {
        Some(SOUTHBOUND)
    } else {
        None
    }
}

pub open spec fn has_stop(cat: Seq<StopView>, id: usize) -> bool {
    exists|i: int| 0 <= i < cat.len() && (#[trigger] cat[i]).1 == id
}

/// `i` is the first position of stop `id` in the catalog.
pub open spec fn is_position(cat: Seq<StopView>, id: usize, i: int) -> bool {
    &&& 0 <= i < cat.len()
    &&& cat[i].1 == id
    &&& forall|j: int| 0 <= j < i ==> (#[trigger] cat[j]).1 != id
}

pub open spec fn position_of(cat: Seq<StopView>, id: usize) -> int {
    choose|i: int| is_position(cat, id, i)
}

/// A stop's first position is the one that `position_of` names.
pub proof fn lemma_position(cat: Seq<StopView>, id: usize, i: int)
    requires
        is_position(cat, id, i),
    ensures
        position_of(cat, id) == i,
{
    let p = position_of(cat, id);
    assert(is_position(cat, id, p));
    if p < i {
        assert(cat[p].1 != id);
    }
    if i < p {
        assert(cat[i].1 != id);
    }
}

/// The direction of a trip between two stops of the catalog: the topology
/// rule where it speaks, else southbound unless the trip starts further down
/// the catalog's order than it ends.
pub open spec fn direction_of(cat: Seq<StopView>, from: usize, to: usize) -> usize {
    let fp = position_of(cat, from);
    let tp = position_of(cat, to);
    match section_rule(cat[fp].2, cat[tp].2) {
        Some(d) => d,
        None => if fp > tp {
            NORTHBOUND
        } else {
            SOUTHBOUND
        },
    }
}

/// The first display name of stop `id`, if the catalog has it and it has one.
pub open spec fn stop_name(cat: Seq<StopView>, id: usize) -> Option<Seq<char>> {
    if has_stop(cat, id) && cat[position_of(cat, id)].0.len() > 0 {
        Some(cat[position_of(cat, id)].0[0])
    } else {
        None
    }
}

impl StopCatalog {
    /// The first position of stop `id` in the catalog, if it is there.
    pub fn position(&self, id: usize) -> (r: Option<usize>)
        ensures
            match r {
                Some(p) => is_position(self@, id, p as int),
                None => !has_stop(self@, id),
            },
    {
        let mut i: usize = 0;
        while i < self.stops.len()
            invariant
                i <= self@.len(),
                forall|j: int| 0 <= j < i ==> (#[trigger] self@[j]).1 != id,
            decreases self@.len() - i,
        {
            if self.stops[i].stop_id == id {
                assert(self@[i as int].1 == id);
                return Some(i);
            }
            i = i + 1;
        }
        None
    }

    /// The first display name of stop `id`.
    pub fn display_name(&self, id: usize) -> (r: Option<String>)
        ensures
            text_opt(r) == stop_name(self@, id),
            stop_name(self@, id) is Some ==> has_stop(self@, id),
            self.wf() && has_stop(self@, id) ==> r is Some,
    {
        match self.position(id) {
            Some(p) => {
                proof {
                    lemma_position(self@, id, p as int);
                }
                let stop = &self.stops[p];
                assert(stop@ == self@[p as int]);
                if stop.display_names.len() > 0 {
                    assert(stop.display_names@[0]@ == self@[p as int].0[0]);
                    Some(stop.display_names[0].clone())
                } else {
                    None
                }
            },
            None => None,
        }
    }
}

/// The direction in which to ask for departures to travel from one stop of
/// the catalog to another.
pub fn get_sens(catalog: &StopCatalog, from_stop_id: usize, to_stop_id: usize) -> (r: usize)
    requires
        has_stop(catalog@, from_stop_id),
        has_stop(catalog@, to_stop_id),
    ensures
        r == direction_of(catalog@, from_stop_id, to_stop_id),
        r == SOUTHBOUND || r == NORTHBOUND,
{
    let from_position = match catalog.position(from_stop_id) {
        Some(p) => p,
        None => 0,
    };
    let to_position = match catalog.position(to_stop_id) {
        Some(p) => p,
        None => 0,
    };
    proof {
        lemma_position(catalog@, from_stop_id, from_position as int);
        lemma_position(catalog@, to_stop_id, to_position as int);
    }
    let from_section_id = catalog.stops[from_position].section_id;
    let to_section_id = catalog.stops[to_position].section_id;
    assert(catalog.stops@[from_position as int]@ == catalog@[from_position as int]);
    assert(catalog.stops@[to_position as int]@ == catalog@[to_position as int]);
    match section_direction(from_section_id, to_section_id) {
        Some(d) => d,
        None => if from_position > to_position {
            NORTHBOUND
        } else {
            SOUTHBOUND
        },
    }
}

/// A trip's direction is fixed by the catalog and its two stops alone, and
/// is one of the two tokens: asking twice for the same trip gives the same
/// answer.
pub proof fn lemma_direction_is_determined(
    cat: Seq<StopView>,
    from: usize,
    to: usize,
    first: usize,
    second: usize,
)
    requires
        has_stop(cat, from),
        has_stop(cat, to),
        first == direction_of(cat, from, to),
        second == direction_of(cat, from, to),
    ensures
        first == second,
        first == SOUTHBOUND || first == NORTHBOUND,
{
}

} // verus!
