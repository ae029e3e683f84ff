use vstd::prelude::*;

verus! {

/// What Unicode case folding maps a character sequence to.  Two header
/// names denote the same logical header exactly when their foldings are
/// equal.
pub uninterp spec fn fold_of(s: Seq<char>) -> Seq<char>;

/// Relies on `unicase::eq`: it compares two strings by Unicode case
/// folding, so it returns true exactly when the two foldings are the
/// same character sequence.
#[verifier::external_body]
fn names_equal(a: &str, b: &str) -> (r: bool)
    ensures
        r == (fold_of(a@) == fold_of(b@)),
{
    unicase::eq(a, b)
}

/// The index of the first element of `s` whose name folds like `key`,
/// or -1 if no element's name does.
pub open spec fn first_match<T>(s: Seq<(Seq<char>, T)>, key: Seq<char>) -> int
    decreases s.len(),
{
    if s.len() == 0 {
        -1
    } else if fold_of(s[0].0) == fold_of(key) {
        0
    } else if first_match(s.drop_first(), key) == -1 {
        -1
    } else {
        first_match(s.drop_first(), key) + 1
    }
}

pub proof fn lemma_first_match_props<T>(s: Seq<(Seq<char>, T)>, key: Seq<char>)
    ensures
        first_match(s, key) == -1 ==> (forall|j: int|
            0 <= j < s.len() ==> fold_of(#[trigger] s[j].0) != fold_of(key)),
        first_match(s, key) != -1 ==> {
            let i = first_match(s, key);
            &&& 0 <= i < s.len()
            &&& fold_of(s[i].0) == fold_of(key)
            &&& forall|j: int| 0 <= j < i ==> fold_of(#[trigger] s[j].0) != fold_of(key)
        },
    decreases s.len(),
{
    if s.len() > 0 && fold_of(s[0].0) != fold_of(key) {
        let d = s.drop_first();
        lemma_first_match_props(d, key);
        if first_match(d, key) == -1 {
            assert forall|j: int| 0 <= j < s.len() implies fold_of(#[trigger] s[j].0)
                != fold_of(key) by {
                if j > 0 {
                    assert(d[j - 1] == s[j]);
                }
            }
        } else {
            let i = first_match(d, key) + 1;
            assert(d[i - 1] == s[i]);
            assert forall|j: int| 0 <= j < i implies fold_of(#[trigger] s[j].0)
                != fold_of(key) by {
                if j > 0 {
                    assert(d[j - 1] == s[j]);
                }
            }
        }
    }
}

/// The first index at which a fold-match occurs determines `first_match`.
pub proof fn lemma_first_match_is<T>(s: Seq<(Seq<char>, T)>, key: Seq<char>, i: int)
    requires
        0 <= i < s.len(),
        fold_of(s[i].0) == fold_of(key),
        forall|j: int| 0 <= j < i ==> fold_of(#[trigger] s[j].0) != fold_of(key),
    ensures
        first_match(s, key) == i,
    decreases s.len(),
{
    if i > 0 {
        assert(s.drop_first()[i - 1] == s[i]);
        assert(forall|j: int|
            0 <= j < i - 1 ==> s.drop_first()[j] == s[j + 1]);
        lemma_first_match_is(s.drop_first(), key, i - 1);
    }
}

pub proof fn lemma_first_match_none<T>(s: Seq<(Seq<char>, T)>, key: Seq<char>)
    requires
        forall|j: int| 0 <= j < s.len() ==> fold_of(#[trigger] s[j].0) != fold_of(key),
    ensures
        first_match(s, key) == -1,
    decreases s.len(),
{
    if s.len() > 0 {
        assert(forall|j: int|
            0 <= j < s.drop_first().len() ==> s.drop_first()[j] == s[j + 1]);
        lemma_first_match_none(s.drop_first(), key);
    }
}

/// `first_match` looks only at the names, never at the values.
pub proof fn lemma_first_match_same_names<T, U>(
    s: Seq<(Seq<char>, T)>,
    t: Seq<(Seq<char>, U)>,
    key: Seq<char>,
)
    requires
        s.len() == t.len(),
        forall|j: int| 0 <= j < s.len() ==> (#[trigger] s[j].0) == t[j].0,
    ensures
        first_match(s, key) == first_match(t, key),
    decreases s.len(),
{
    if s.len() > 0 {
        assert(forall|j: int|
            0 <= j < s.drop_first().len() ==> s.drop_first()[j] == s[j + 1]);
        assert(forall|j: int|
            0 <= j < t.drop_first().len() ==> t.drop_first()[j] == t[j + 1]);
        lemma_first_match_same_names(s.drop_first(), t.drop_first(), key);
    }
}

pub proof fn lemma_first_match_push<T>(s: Seq<(Seq<char>, T)>, e: (Seq<char>, T), key: Seq<char>)
    ensures
        first_match(s, key) != -1 ==> first_match(s.push(e), key) == first_match(s, key),
        first_match(s, key) == -1 && fold_of(e.0) == fold_of(key) ==> first_match(
            s.push(e),
            key,
        ) == s.len(),
        first_match(s, key) == -1 && fold_of(e.0) != fold_of(key) ==> first_match(
            s.push(e),
            key,
        ) == -1,
{
    lemma_first_match_props(s, key);
    let p = s.push(e);
    assert(forall|j: int| 0 <= j < s.len() ==> p[j] == s[j]);
    assert(p[s.len() as int] == e);
    if first_match(s, key) != -1 {
        lemma_first_match_is(p, key, first_match(s, key));
    } else if fold_of(e.0) == fold_of(key) {
        lemma_first_match_is(p, key, s.len() as int);
    } else {
        lemma_first_match_none(p, key);
    }
}

/// The values carried by the lines whose name folds like `key`, in the
/// order the lines were received.
pub open spec fn values_for(lines: Seq<(Seq<char>, Seq<char>)>, key: Seq<char>) -> Seq<Seq<char>>
    decreases lines.len(),
{
    if lines.len() == 0 {
        Seq::empty()
    } else if fold_of(lines.last().0) == fold_of(key) {
        values_for(lines.drop_last(), key).push(lines.last().1)
    } else {
        values_for(lines.drop_last(), key)
    }
}

/// Grouping raw header lines into table entries: each line either joins
/// the entry whose name folds like its own, or starts a new entry at the
/// end of the table.
pub open spec fn fold_lines(lines: Seq<(Seq<char>, Seq<char>)>) -> Seq<(Seq<char>, Seq<Seq<char>>)>
    decreases lines.len(),
{
    if lines.len() == 0 {
        Seq::empty()
    } else {
        let prefix = fold_lines(lines.drop_last());
        let line = lines.last();
        let i = first_match(prefix, line.0);
        if i == -1 {
            prefix.push((line.0, seq![line.1]))
        } else {
            prefix.update(i, (prefix[i].0, prefix[i].1.push(line.1)))
        }
    }
}

/// A folded table never holds two entries for one logical header.
pub proof fn lemma_fold_lines_wf(lines: Seq<(Seq<char>, Seq<char>)>)
    ensures
        table_wf(fold_lines(lines)),
    decreases lines.len(),
{
    if lines.len() > 0 {
        let l = lines.drop_last();
        let line = lines.last();
        lemma_fold_lines_wf(l);
        let ep = fold_lines(l);
        let e = fold_lines(lines);
        let idx = first_match(ep, line.0);
        lemma_first_match_props(ep, line.0);
        if idx == -1 {
            assert forall|i: int, j: int| 0 <= i < j < e.len() implies fold_of(
                #[trigger] e[i].0,
            ) != fold_of(#[trigger] e[j].0) by {
                assert(e[i] == ep[i]);
                if j < ep.len() {
                    assert(e[j] == ep[j]);
                } else {
                    assert(e[j].0 == line.0);
                }
            }
        } else {
            assert forall|i: int, j: int| 0 <= i < j < e.len() implies fold_of(
                #[trigger] e[i].0,
            ) != fold_of(#[trigger] e[j].0) by {
                assert(e[i].0 == ep[i].0);
                assert(e[j].0 == ep[j].0);
            }
        }
    }
}

/// A name with no entry in the folded table was carried by no line.
proof fn lemma_no_match_no_values(lines: Seq<(Seq<char>, Seq<char>)>, key: Seq<char>)
    requires
        first_match(fold_lines(lines), key) == -1,
    ensures
        values_for(lines, key) == Seq::<Seq<char>>::empty(),
    decreases lines.len(),
{
    if lines.len() > 0 {
        let l = lines.drop_last();
        let line = lines.last();
        let ep = fold_lines(l);
        let e = fold_lines(lines);
        let idx = first_match(ep, line.0);
        lemma_first_match_props(ep, line.0);
        lemma_first_match_props(e, key);
        if idx == -1 {
            lemma_first_match_push(ep, (line.0, seq![line.1]), key);
            assert(e == ep.push((line.0, seq![line.1])));
            assert(first_match(ep, key) == -1);
            assert(e[e.len() - 1].0 == line.0);
            assert(fold_of(line.0) != fold_of(key));
        } else {
            let upd = (ep[idx].0, ep[idx].1.push(line.1));
            assert(e == ep.update(idx, upd));
            assert forall|j: int| 0 <= j < ep.len() implies (#[trigger] ep[j].0) == e[j].0 by {
                if j != idx {
                    assert(e[j] == ep[j]);
                }
            }
            lemma_first_match_same_names(ep, e, key);
            assert(first_match(ep, key) == -1);
            lemma_first_match_props(ep, key);
            assert(fold_of(ep[idx].0) == fold_of(line.0));
            assert(fold_of(line.0) != fold_of(key));
        }
        lemma_no_match_no_values(l, key);
    }
}

/// The header-fold law: folding raw lines yields one entry per distinct
/// case-insensitive name; each entry holds exactly the values of the
/// lines whose name folds like its own, in received order, under the
/// spelling of the first such line; and entries stand in the order those
/// first lines arrived.
pub proof fn lemma_header_fold(lines: Seq<(Seq<char>, Seq<char>)>)
    ensures
        table_wf(fold_lines(lines)),
        forall|k: int|
            0 <= k < lines.len() ==> first_match(fold_lines(lines), (#[trigger] lines[k]).0)
                != -1,
        forall|i: int|
            0 <= i < fold_lines(lines).len() ==> (#[trigger] fold_lines(lines)[i]).1
                == values_for(lines, fold_lines(lines)[i].0),
        forall|i: int|
            0 <= i < fold_lines(lines).len() ==> {
                let k = first_match(lines, (#[trigger] fold_lines(lines)[i]).0);
                &&& 0 <= k < lines.len()
                &&& lines[k].0 == fold_lines(lines)[i].0
            },
        forall|i: int, j: int|
            0 <= i < j < fold_lines(lines).len() ==> first_match(
                lines,
                (#[trigger] fold_lines(lines)[i]).0,
            ) < first_match(lines, (#[trigger] fold_lines(lines)[j]).0),
    decreases lines.len(),
{
    lemma_fold_lines_wf(lines);
    if lines.len() > 0 {
        let l = lines.drop_last();
        let line = lines.last();
        lemma_header_fold(l);
        lemma_fold_lines_wf(l);
        let ep = fold_lines(l);
        let e = fold_lines(lines);
        let idx = first_match(ep, line.0);
        lemma_first_match_props(ep, line.0);
        assert(lines =~= l.push(line));
        if idx == -1 {
            assert(e == ep.push((line.0, seq![line.1])));
            assert(e[ep.len() as int] == (line.0, seq![line.1]));
            assert forall|j: int| 0 <= j < ep.len() implies #[trigger] e[j] == ep[j] by {}
            // no line of `l` folds like the new name
            assert(first_match(l, line.0) == -1) by {
                if first_match(l, line.0) != -1 {
                    lemma_first_match_props(l, line.0);
                    let k = first_match(l, line.0);
                    assert(first_match(ep, l[k].0) != -1);
                    lemma_first_match_props(ep, l[k].0);
                    let i0 = first_match(ep, l[k].0);
                    assert(fold_of(ep[i0].0) == fold_of(line.0));
                    lemma_first_match_none(ep, line.0);
                }
            }
            lemma_no_match_no_values(l, line.0);
            // coverage
            assert forall|k: int| 0 <= k < lines.len() implies first_match(
                e,
                (#[trigger] lines[k]).0,
            ) != -1 by {
                if k < l.len() {
                    assert(lines[k] == l[k]);
                    lemma_first_match_push(ep, (line.0, seq![line.1]), lines[k].0);
                } else {
                    assert(lines[k] == line);
                    lemma_first_match_push(ep, (line.0, seq![line.1]), line.0);
                }
            }
            // values
            assert forall|i: int| 0 <= i < e.len() implies (#[trigger] e[i]).1 == values_for(
                lines,
                e[i].0,
            ) by {
                if i < ep.len() {
                    assert(e[i] == ep[i]);
                    assert(fold_of(line.0) != fold_of(ep[i].0));
                    assert(values_for(lines, e[i].0) == values_for(l, e[i].0));
                } else {
                    assert(e[i] == (line.0, seq![line.1]));
                    assert(values_for(lines, line.0) == values_for(l, line.0).push(line.1));
                    assert(values_for(l, line.0).push(line.1) =~= seq![line.1]);
                }
            }
            // spelling and order
            assert forall|i: int| 0 <= i < e.len() implies {
                let k = first_match(lines, (#[trigger] e[i]).0);
                &&& 0 <= k < lines.len()
                &&& lines[k].0 == e[i].0
            } by {
                if i < ep.len() {
                    assert(e[i] == ep[i]);
                    lemma_first_match_push(l, line, ep[i].0);
                    assert(lines[first_match(l, ep[i].0)] == l[first_match(l, ep[i].0)]);
                } else {
                    assert(e[i].0 == line.0);
                    lemma_first_match_push(l, line, line.0);
                    assert(first_match(lines, line.0) == l.len());
                }
            }
            assert forall|i: int, j: int| 0 <= i < j < e.len() implies first_match(
                lines,
                (#[trigger] e[i]).0,
            ) < first_match(lines, (#[trigger] e[j]).0) by {
                assert(e[i] == ep[i]);
                lemma_first_match_push(l, line, ep[i].0);
                if j < ep.len() {
                    assert(e[j] == ep[j]);
                    lemma_first_match_push(l, line, ep[j].0);
                } else {
                    assert(e[j].0 == line.0);
                    lemma_first_match_push(l, line, line.0);
                    assert(first_match(l, ep[i].0) < l.len());
                }
            }
        } else {
            let upd = (ep[idx].0, ep[idx].1.push(line.1));
            assert(e == ep.update(idx, upd));
            assert forall|j: int| 0 <= j < ep.len() implies (#[trigger] ep[j].0) == e[j].0 by {
                if j != idx {
                    assert(e[j] == ep[j]);
                }
            }
            assert(fold_of(ep[idx].0) == fold_of(line.0));
            // coverage
            assert forall|k: int| 0 <= k < lines.len() implies first_match(
                e,
                (#[trigger] lines[k]).0,
            ) != -1 by {
                if k < l.len() {
                    assert(lines[k] == l[k]);
                    lemma_first_match_same_names(ep, e, lines[k].0);
                } else {
                    assert(lines[k] == line);
                    lemma_first_match_same_names(ep, e, line.0);
                }
            }
            // values
            assert forall|i: int| 0 <= i < e.len() implies (#[trigger] e[i]).1 == values_for(
                lines,
                e[i].0,
            ) by {
                if i == idx {
                    assert(e[idx].0 == ep[idx].0);
                    assert(fold_of(line.0) == fold_of(e[idx].0));
                    assert(values_for(lines, e[idx].0) == values_for(l, e[idx].0).push(line.1));
                    assert(e[idx].1 == ep[idx].1.push(line.1));
                } else {
                    assert(e[i] == ep[i]);
                    assert(fold_of(ep[idx].0) != fold_of(ep[i].0));
                    assert(fold_of(line.0) != fold_of(e[i].0));
                    assert(values_for(lines, e[i].0) == values_for(l, e[i].0));
                }
            }
            // spelling and order
            assert forall|i: int| 0 <= i < e.len() implies {
                let k = first_match(lines, (#[trigger] e[i]).0);
                &&& 0 <= k < lines.len()
                &&& lines[k].0 == e[i].0
            } by {
                assert(e[i].0 == ep[i].0);
                lemma_first_match_push(l, line, ep[i].0);
                assert(lines[first_match(l, ep[i].0)] == l[first_match(l, ep[i].0)]);
            }
            assert forall|i: int, j: int| 0 <= i < j < e.len() implies first_match(
                lines,
                (#[trigger] e[i]).0,
            ) < first_match(lines, (#[trigger] e[j]).0) by {
                assert(e[i].0 == ep[i].0);
                assert(e[j].0 == ep[j].0);
                lemma_first_match_push(l, line, ep[i].0);
                lemma_first_match_push(l, line, ep[j].0);
            }
        }
    }
}

/// Case-insensitive, multi-valued header storage.  Entries keep the
/// spelling of the first line received for each logical header, in
/// first-occurrence order; each entry's values keep line order.
pub struct HeaderTable {
    entries: Vec<(String, Vec<String>)>,
}

impl View for HeaderTable {
    type V = Seq<(Seq<char>, Seq<Seq<char>>)>;

    closed spec fn view(&self) -> Seq<(Seq<char>, Seq<Seq<char>>)> {
        self.entries.deep_view()
    }
}

/// No two entries of a well-formed table fold to the same name.
pub open spec fn table_wf(t: Seq<(Seq<char>, Seq<Seq<char>>)>) -> bool {
    forall|i: int, j: int|
        0 <= i < j < t.len() ==> fold_of(#[trigger] t[i].0) != fold_of(#[trigger] t[j].0)
}

/// The first entry (if any) whose stored name folds like `key`.
fn find_index(entries: &Vec<(String, Vec<String>)>, key: &str) -> (r: Option<usize>)
    ensures
        match r {
            Some(i) => i == first_match(entries.deep_view(), key@) && i < entries@.len(),
            None => first_match(entries.deep_view(), key@) == -1,
        },
{
    let ghost s = entries.deep_view();
    let n = entries.len();
    let mut i: usize = 0;
    while i < n
        invariant
            i <= n,
            n == entries@.len(),
            s == entries.deep_view(),
            forall|j: int| 0 <= j < i ==> fold_of(#[trigger] s[j].0) != fold_of(key@),
        decreases n - i,
    {
        if names_equal(entries[i].0.as_str(), key) {
            proof {
                assert(s[i as int].0 == entries@[i as int].0@);
                lemma_first_match_is(s, key@, i as int);
            }
            return Some(i);
        }
        proof {
            assert(s[i as int].0 == entries@[i as int].0@);
        }
        i = i + 1;
    }
    proof {
        lemma_first_match_none(s, key@);
    }
    None
}

impl HeaderTable {
    /// Build the table from the transport's raw header lines.  Lines
    /// whose names fold alike collapse into one entry, keeping the first
    /// spelling and the received value order; nothing else is normalized.
    pub fn from_lines(lines: &Vec<(String, String)>) -> (t: HeaderTable)
        ensures
            t@ == fold_lines(lines.deep_view()),
            table_wf(t@),
    {
        proof {
            lemma_fold_lines_wf(lines.deep_view());
        }
        let ghost lv = lines.deep_view();
        let mut entries: Vec<(String, Vec<String>)> = Vec::new();
        let n = lines.len();
        let mut k: usize = 0;
        proof {
            assert(entries.deep_view() =~= fold_lines(lv.take(0)));
        }
        while k < n
            invariant
                k <= n,
                n == lines@.len(),
                lv == lines.deep_view(),
                entries.deep_view() == fold_lines(lv.take(k as int)),
            decreases n - k,
        {
            let name = lines[k].0.clone();
            let value = lines[k].1.clone();
            proof {
                assert(lv.take(k + 1).drop_last() =~= lv.take(k as int));
                assert(lv.take(k + 1).last() == lv[k as int]);
                assert(lv[k as int] == (name@, value@));
            }
            match find_index(&entries, name.as_str()) {
                Some(i) => {
                    let ghost before = entries.deep_view();
                    entries[i].1.push(value);
                    proof {
                        let idx = i as int;
                        assert(entries@[idx].1.deep_view() =~= before[idx].1.push(value@));
                        assert(entries.deep_view() =~~= before.update(
                            idx,
                            (before[idx].0, before[idx].1.push(value@)),
                        ));
                        assert(entries.deep_view() =~~= fold_lines(lv.take(k + 1)));
                    }
                },
                None => {
                    let ghost before = entries.deep_view();
                    let mut vs: Vec<String> = Vec::new();
                    vs.push(value);
                    proof {
                        assert(vs.deep_view() =~= seq![lv[k as int].1]);
                    }
                    entries.push((name, vs));
                    proof {
                        assert(entries.deep_view() =~~= before.push(
                            (lv[k as int].0, seq![lv[k as int].1]),
                        ));
                        assert(entries.deep_view() =~~= fold_lines(lv.take(k + 1)));
                    }
                },
            }
            k = k + 1;
        }
        proof {
            assert(lv.take(n as int) =~= lv);
        }
        HeaderTable { entries }
    }

    /// The stored values of the entry whose name folds like `key`, or
    /// `None` if the table has no such entry.
    pub fn find_raw(&self, key: &str) -> (r: Option<&Vec<String>>)
        ensures
            match r {
                Some(vs) => {
                    let i = first_match(self@, key@);
                    &&& 0 <= i < self@.len()
                    &&& vs.deep_view() == self@[i].1
                },
                None => first_match(self@, key@) == -1,
            },
    {
        match find_index(&self.entries, key) {
            Some(i) => {
                proof {
                    assert(self.entries@[i as int].1.deep_view() == self@[i as int].1);
                }
                Some(&self.entries[i].1)
            },
            None => None,
        }
    }

    /// The values of the matching entry, borrowed one by one; `None` if
    /// no entry's name folds like `key`.
    pub fn find(&self, key: &str) -> (r: Option<Vec<&str>>)
        ensures
            match r {
                Some(vs) => {
                    let i = first_match(self@, key@);
                    &&& 0 <= i < self@.len()
                    &&& vs.deep_view() == self@[i].1
                },
                None => first_match(self@, key@) == -1,
            },
    {
        match self.find_raw(key) {
            Some(vs) => {
                let ghost target = vs.deep_view();
                let mut out: Vec<&str> = Vec::new();
                let n = vs.len();
                let mut j: usize = 0;
                while j < n
                    invariant
                        j <= n,
                        n == vs@.len(),
                        target == vs.deep_view(),
                        out@.len() == j,
                        forall|l: int| 0 <= l < j ==> (#[trigger] out@[l])@ == target[l],
                    decreases n - j,
                {
                    out.push(vs[j].as_str());
                    j = j + 1;
                }
                proof {
                    assert forall|l: int| 0 <= l < n implies out.deep_view()[l] == target[l] by {
                        assert(out.deep_view()[l] == out@[l]@);
                    }
                    assert(out.deep_view() =~= target);
                }
                Some(out)
            },
            None => None,
        }
    }

    /// Whether some entry's name folds like `key`.
    pub fn has(&self, key: &str) -> (r: bool)
        ensures
            r == (first_match(self@, key@) != -1),
    {
        match self.find_raw(key) {
            Some(_) => true,
            None => false,
        }
    }

    /// Every entry, in table order: name spelling and values as stored.
    pub fn all(&self) -> (r: Vec<(&str, Vec<&str>)>)
        ensures
            r.deep_view() == self@,
    {
        let mut out: Vec<(&str, Vec<&str>)> = Vec::new();
        let n = self.entries.len();
        let mut i: usize = 0;
        while i < n
            invariant
                i <= n,
                n == self.entries@.len(),
                out@.len() == i,
                forall|l: int|
                    0 <= l < i ==> (#[trigger] out@[l]).0@ == self@[l].0 && out@[l].1.deep_view()
                        == self@[l].1,
            decreases n - i,
        {
            let entry = &self.entries[i];
            let ghost target = entry.1.deep_view();
            let mut vals: Vec<&str> = Vec::new();
            let m = entry.1.len();
            let mut j: usize = 0;
            while j < m
                invariant
                    j <= m,
                    m == entry.1@.len(),
                    target == entry.1.deep_view(),
                    vals@.len() == j,
                    forall|l: int| 0 <= l < j ==> (#[trigger] vals@[l])@ == target[l],
                decreases m - j,
            {
                vals.push(entry.1[j].as_str());
                j = j + 1;
            }
            proof {
                assert forall|l: int| 0 <= l < m implies vals.deep_view()[l] == target[l] by {
                    assert(vals.deep_view()[l] == vals@[l]@);
                }
                assert(vals.deep_view() =~= target);
                assert(target == self@[i as int].1);
            }
            out.push((entry.0.as_str(), vals));
            i = i + 1;
        }
        proof {
            assert forall|l: int| 0 <= l < n implies out.deep_view()[l] == self@[l] by {
                assert(out.deep_view()[l] == (out@[l].0@, out@[l].1.deep_view()));
            }
            assert(out.deep_view() =~~= self@);
        }
        out
    }
}

} // verus!
