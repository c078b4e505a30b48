//! The grammar of encoder option strings (`key=value,key=value,...`) and the
//! ordered list of assignments that such a string stands for.
use vstd::prelude::*;
use crate::text::{is_white_space, white_space, chars_of, string_of_range};

verus! {

/// The parts of `s` between commas, as `str::split(',')` yields them: a
/// string with `n` commas has `n + 1` parts, empty ones included.
pub open spec fn split_commas(s: Seq<char>) -> Seq<Seq<char>>
    decreases s.len(),
{
    if s.len() == 0 {
        seq![Seq::<char>::empty()]
    } else {
        let init = split_commas(s.drop_last());
        if s.last() == ',' {
            init.push(Seq::<char>::empty())
        } else {
            init.update(init.len() - 1, init.last().push(s.last()))
        }
    }
}

/// `s` without its leading white space.
pub open spec fn trim_start(s: Seq<char>) -> Seq<char>
    decreases s.len(),
{
    if s.len() > 0 && is_white_space(s[0]) {
        trim_start(s.drop_first())
    } else {
        s
    }
}

/// `s` without its trailing white space.
pub open spec fn trim_end(s: Seq<char>) -> Seq<char>
    decreases s.len(),
{
    if s.len() > 0 && is_white_space(s.last()) {
        trim_end(s.drop_last())
    } else {
        s
    }
}

/// `s` without white space at either end, as `str::trim` gives it.
pub open spec fn trim(s: Seq<char>) -> Seq<char> {
    trim_end(trim_start(s))
}

/// `i` is the position of the first `=` in `s`.
pub open spec fn is_first_eq(s: Seq<char>, i: int) -> bool {
    &&& 0 <= i < s.len()
    &&& s[i] == '='
    &&& forall|j: int| 0 <= j < i ==> s[j] != '='
}

/// `s` split around its first `=`, as `str::split_once('=')` gives it.
pub open spec fn split_once_eq(s: Seq<char>) -> Option<(Seq<char>, Seq<char>)> {
    if exists|i: int| is_first_eq(s, i) {
        let i = choose|i: int| is_first_eq(s, i);
        Some((s.take(i), s.skip(i + 1)))
    } else {
        None
    }
}

/// Reading the parts in order: the assignments read before the first part
/// that has no `=`, and that part (trimmed), if there is one.
pub open spec fn parse_parts(parts: Seq<Seq<char>>) -> (Seq<(Seq<char>, Seq<char>)>, Option<Seq<char>>)
    decreases parts.len(),
{
    if parts.len() == 0 {
        (Seq::empty(), None)
    } else {
        let prev = parse_parts(parts.drop_last());
        if prev.1 is Some {
            prev
        } else {
            match split_once_eq(trim(parts.last())) {
                Some(kv) => (prev.0.push(kv), None),
                None => (prev.0, Some(trim(parts.last()))),
            }
        }
    }
}

/// What an option string means: the list of `key = value` assignments, one
/// per comma-separated part, or the first (trimmed) part that has no `=`.
pub open spec fn spec_parse_opts(s: Seq<char>) -> Result<Seq<(Seq<char>, Seq<char>)>, Seq<char>> {
    let r = parse_parts(split_commas(s));
    match r.1 {
        Some(bad) => Err(bad),
        None => Ok(r.0),
    }
}

/// The assignments that are read from `s` before its first malformed part
/// (all of them when there is none).
pub open spec fn assigned_before_error(s: Seq<char>) -> Seq<(Seq<char>, Seq<char>)> {
    parse_parts(split_commas(s)).0
}

/// No key and no value in `pairs` holds a NUL character.
pub open spec fn free_of_nul(pairs: Seq<(Seq<char>, Seq<char>)>) -> bool {
    forall|i: int| 0 <= i < pairs.len() ==> !(#[trigger] pairs[i]).0.contains('\0') && !pairs[i].1.contains('\0')
}

/// Every string has at least one part.
pub proof fn lemma_split_commas_nonempty(s: Seq<char>)
    ensures
        split_commas(s).len() >= 1,
    decreases s.len(),
{
    if s.len() > 0 {
        lemma_split_commas_nonempty(s.drop_last());
    }
}

/// The encoder options of a conversion: assignments `key = value` in the
/// order in which they are applied to FFmpeg's option dictionary, so that a
/// later assignment to a key overrides an earlier one (FFmpeg compares keys
/// without regard to the case of ASCII letters). The dictionary they give is
/// [`dictionary_of`].
#[derive(Debug, Clone)]
pub struct Options {
    entries: Vec<(String, String)>,
}

/// The abstract value of one recorded assignment.
pub open spec fn entry_view(e: (String, String)) -> (Seq<char>, Seq<char>) {
    (e.0@, e.1@)
}

impl View for Options {
    type V = Seq<(Seq<char>, Seq<char>)>;

    closed spec fn view(&self) -> Seq<(Seq<char>, Seq<char>)> {
        self.entries@.map_values(|e: (String, String)| entry_view(e))
    }
}

impl Options {
    /// No assignments.
    pub fn new() -> (o: Options)
        ensures
            o@ == Seq::<(Seq<char>, Seq<char>)>::empty(),
    {
        let o = Options { entries: Vec::new() };
        assert(o@ =~= Seq::<(Seq<char>, Seq<char>)>::empty());
        o
    }

    /// Records `key = value` after the assignments already held.
    pub fn set(&mut self, key: &str, value: &str)
        ensures
            final(self)@ == old(self)@.push((key@, value@)),
    {
        self.push_entry(key.to_owned(), value.to_owned());
    }

    fn push_entry(&mut self, key: String, value: String)
        ensures
            final(self)@ == old(self)@.push((key@, value@)),
    {
        self.entries.push((key, value));
        assert(self@ =~= old(self)@.push((key@, value@)));
    }

    /// Number of assignments held.
    pub fn len(&self) -> (n: usize)
        ensures
            n == self@.len(),
    {
        self.entries.len()
    }

    /// The key of the `i`-th assignment.
    pub fn key(&self, i: usize) -> (k: &str)
        requires
            i < self@.len(),
        ensures
            k@ == self@[i as int].0,
    {
        self.entries[i].0.as_str()
    }

    /// The value of the `i`-th assignment.
    pub fn value(&self, i: usize) -> (v: &str)
        requires
            i < self@.len(),
        ensures
            v@ == self@[i as int].1,
    {
        self.entries[i].1.as_str()
    }
}

/// The abstract value of an optional string.
pub open spec fn opt_view(o: Option<String>) -> Option<Seq<char>> {
    match o {
        Some(s) => Some(s@),
        None => None,
    }
}

/// Reads the part `chars[lo..hi]`: trims it and splits it at its first `=`;
/// gives back the trimmed part when it has no `=`.
fn read_part(chars: &Vec<char>, lo: usize, hi: usize) -> (r: Result<(String, String), String>)
    requires
        lo <= hi <= chars@.len(),
    ensures
        match split_once_eq(trim(chars@.subrange(lo as int, hi as int))) {
            Some(kv) => r matches Ok(p) && p.0@ == kv.0 && p.1@ == kv.1,
            None => r matches Err(bad) && bad@ == trim(chars@.subrange(lo as int, hi as int)),
        },
{
    let mut a = lo;
    while a < hi && white_space(chars[a])
        invariant
            lo <= a <= hi <= chars@.len(),
            trim_start(chars@.subrange(lo as int, hi as int)) == trim_start(chars@.subrange(a as int, hi as int)),
        decreases hi - a,
    {
        assert(chars@.subrange(a as int, hi as int).drop_first() =~= chars@.subrange(a + 1, hi as int));
        a = a + 1;
    }
    assert(trim_start(chars@.subrange(a as int, hi as int)) == chars@.subrange(a as int, hi as int));
    let mut b = hi;
    while b > a && white_space(chars[b - 1])
        invariant
            lo <= a <= b <= hi <= chars@.len(),
            trim_end(chars@.subrange(a as int, hi as int)) == trim_end(chars@.subrange(a as int, b as int)),
        decreases b - a,
    {
        assert(chars@.subrange(a as int, b as int).drop_last() =~= chars@.subrange(a as int, b - 1));
        b = b - 1;
    }
    assert(trim_end(chars@.subrange(a as int, b as int)) == chars@.subrange(a as int, b as int));
    let ghost t = chars@.subrange(a as int, b as int);
    assert(trim(chars@.subrange(lo as int, hi as int)) == t);
    let mut e = a;
    while e < b && chars[e] != '='
        invariant
            a <= e <= b <= chars@.len(),
            forall|j: int| a <= j < e ==> chars@[j] != '=',
        decreases b - e,
    {
        e = e + 1;
    }
    if e == b {
        assert forall|i: int| !is_first_eq(t, i) by {
            if 0 <= i < t.len() {
                assert(t[i] == chars@[a + i]);
            }
        }
        Err(string_of_range(chars, a, b))
    } else {
        let ghost k = e - a;
        assert(is_first_eq(t, k));
        let ghost c = choose|i: int| is_first_eq(t, i);
        assert(c == k) by {
            if c < k {
                assert(t[c] == chars@[a + c]);
            } else if c > k {
                assert(t[k] == '=');
            }
        }
        assert(t.take(k) =~= chars@.subrange(a as int, e as int));
        assert(t.skip(k + 1) =~= chars@.subrange(e + 1, b as int));
        Ok((string_of_range(chars, a, e), string_of_range(chars, e + 1, b)))
    }
}

/// Reads a whole option string: the assignments before its first malformed
/// part, and that part, if any.
pub fn scan_opts(opts: &str) -> (r: (Options, Option<String>))
    ensures
        r.0@ == parse_parts(split_commas(opts@)).0,
        opt_view(r.1) == parse_parts(split_commas(opts@)).1,
{
    let chars = chars_of(opts);
    let n = chars.len();
    let mut pairs = Options::new();
    let mut bad: Option<String> = None;
    let mut start: usize = 0;
    let mut i: usize = 0;
    assert(chars@.take(0) =~= Seq::<char>::empty());
    while i < n
        invariant
            chars@ == opts@,
            n == chars@.len(),
            start <= i <= n,
            split_commas(chars@.take(i as int)).len() >= 1,
            split_commas(chars@.take(i as int)).last() == chars@.subrange(start as int, i as int),
            parse_parts(split_commas(chars@.take(i as int)).drop_last()) == (pairs@, opt_view(bad)),
        decreases n - i,
    {
        let ghost prev = split_commas(chars@.take(i as int));
        assert(chars@.take(i + 1).drop_last() =~= chars@.take(i as int));
        assert(chars@.take(i + 1).last() == chars@[i as int]);
        if chars[i] == ',' {
            assert(split_commas(chars@.take(i + 1)) == prev.push(Seq::<char>::empty()));
            assert(split_commas(chars@.take(i + 1)).drop_last() =~= prev);
            assert(prev.drop_last() == split_commas(chars@.take(i as int)).drop_last());
            if bad.is_none() {
                match read_part(&chars, start, i) {
                    Ok(kv) => {
                        pairs.push_entry(kv.0, kv.1);
                    },
                    Err(part) => {
                        bad = Some(part);
                    },
                }
            }
            start = i + 1;
            assert(chars@.subrange(start as int, i + 1) =~= Seq::<char>::empty());
        } else {
            let ghost next = prev.update(prev.len() - 1, prev.last().push(chars@[i as int]));
            assert(split_commas(chars@.take(i + 1)) == next);
            assert(next.drop_last() =~= prev.drop_last());
            assert(next.last() =~= chars@.subrange(start as int, i + 1));
        }
        i = i + 1;
    }
    assert(chars@.take(n as int) =~= chars@);
    if bad.is_none() {
        match read_part(&chars, start, n) {
            Ok(kv) => {
                pairs.push_entry(kv.0, kv.1);
            },
            Err(part) => {
                bad = Some(part);
            },
        }
    }
    (pairs, bad)
}

/// Number of commas in `s`.
pub open spec fn count_commas(s: Seq<char>) -> nat
    decreases s.len(),
{
    if s.len() == 0 {
        0
    } else {
        count_commas(s.drop_last()) + if s.last() == ',' { 1nat } else { 0nat }
    }
}

/// A string with `n` commas has `n + 1` parts.
pub proof fn law_part_count(s: Seq<char>)
    ensures
        split_commas(s).len() == count_commas(s) + 1,
    decreases s.len(),
{
    if s.len() > 0 {
        law_part_count(s.drop_last());
    }
}

proof fn lemma_parse_parts_pointwise(parts: Seq<Seq<char>>)
    ensures
        (parse_parts(parts).1 is None) <==> (forall|i: int| 0 <= i < parts.len() ==> (#[trigger] split_once_eq(trim(parts[i]))) is Some),
        parse_parts(parts).1 is None ==> parse_parts(parts).0.len() == parts.len(),
        parse_parts(parts).1 is None ==> forall|i: int| 0 <= i < parts.len() ==> Some(#[trigger] parse_parts(parts).0[i]) == split_once_eq(trim(parts[i])),
        parse_parts(parts).1 matches Some(bad) ==> exists|j: int| {
            &&& 0 <= j < parts.len()
            &&& split_once_eq(trim(parts[j])) is None
            &&& bad == trim(parts[j])
            &&& forall|i: int| 0 <= i < j ==> (#[trigger] split_once_eq(trim(parts[i]))) is Some
        },
    decreases parts.len(),
{
    if parts.len() > 0 {
        let init = parts.drop_last();
        lemma_parse_parts_pointwise(init);
        assert forall|i: int| 0 <= i < init.len() implies init[i] == parts[i] by {}
        let last = parts.len() - 1;
        assert(parts.last() == parts[last]);
        if parse_parts(init).1 is None {
            if split_once_eq(trim(parts.last())) is Some {
                let r = parse_parts(parts).0;
                assert forall|i: int| 0 <= i < parts.len() implies Some(#[trigger] r[i]) == split_once_eq(trim(parts[i])) by {
                    if i < last {
                        assert(r[i] == parse_parts(init).0[i]);
                        assert(split_once_eq(trim(init[i])) == Some(parse_parts(init).0[i]));
                    }
                }
            } else {
                assert forall|i: int| 0 <= i < last implies (#[trigger] split_once_eq(trim(parts[i]))) is Some by {
                    assert(split_once_eq(trim(init[i])) is Some);
                }
            }
        } else {
            let bad = parse_parts(init).1->0;
            let j = choose|j: int| {
                &&& 0 <= j < init.len()
                &&& split_once_eq(trim(init[j])) is None
                &&& bad == trim(init[j])
                &&& forall|i: int| 0 <= i < j ==> (#[trigger] split_once_eq(trim(init[i]))) is Some
            };
            assert(parts[j] == init[j]);
            assert forall|i: int| 0 <= i < j implies (#[trigger] split_once_eq(trim(parts[i]))) is Some by {
                assert(parts[i] == init[i]);
            }
        }
    }
}

/// An option string is read part by part: it is well formed exactly when
/// every trimmed part holds a `=`; then its `i`-th assignment comes from its
/// `i`-th part, split at the first `=`. Otherwise the error is the first
/// trimmed part without `=`.
pub proof fn law_parse_pointwise(s: Seq<char>)
    ensures
        (spec_parse_opts(s) is Ok) <==> (forall|i: int| 0 <= i < split_commas(s).len() ==> (#[trigger] split_once_eq(trim(split_commas(s)[i]))) is Some),
        spec_parse_opts(s) matches Ok(pairs) ==> {
            &&& pairs.len() == count_commas(s) + 1
            &&& forall|i: int| 0 <= i < pairs.len() ==> Some(#[trigger] pairs[i]) == split_once_eq(trim(split_commas(s)[i]))
        },
        spec_parse_opts(s) matches Err(bad) ==> exists|j: int| {
            &&& 0 <= j < split_commas(s).len()
            &&& split_once_eq(trim(split_commas(s)[j])) is None
            &&& bad == trim(split_commas(s)[j])
            &&& forall|i: int| 0 <= i < j ==> (#[trigger] split_once_eq(trim(split_commas(s)[i]))) is Some
        },
{
    lemma_parse_parts_pointwise(split_commas(s));
    law_part_count(s);
}

proof fn lemma_split_commas_join(a: Seq<char>, b: Seq<char>)
    ensures
        split_commas(a.push(',') + b) == split_commas(a) + split_commas(b),
    decreases b.len(),
{
    let s = a.push(',') + b;
    if b.len() == 0 {
        assert(s =~= a.push(','));
        assert(s.drop_last() =~= a);
        assert(split_commas(b) =~= seq![Seq::<char>::empty()]);
        assert(split_commas(s) =~= split_commas(a) + split_commas(b));
    } else {
        lemma_split_commas_join(a, b.drop_last());
        lemma_split_commas_nonempty(b.drop_last());
        assert(s.drop_last() =~= a.push(',') + b.drop_last());
        assert(s.last() == b.last());
        let x = split_commas(a);
        let y = split_commas(b.drop_last());
        if b.last() == ',' {
            assert((x + y).push(Seq::<char>::empty()) =~= x + y.push(Seq::<char>::empty()));
        } else {
            let xy = x + y;
            assert(xy.last() == y.last());
            assert(xy.update(xy.len() - 1, xy.last().push(b.last())) =~= x + y.update(y.len() - 1, y.last().push(b.last())));
        }
    }
}

proof fn lemma_parse_parts_append(p: Seq<Seq<char>>, q: Seq<Seq<char>>)
    ensures
        parse_parts(p + q) == if parse_parts(p).1 is Some {
            parse_parts(p)
        } else {
            (parse_parts(p).0 + parse_parts(q).0, parse_parts(q).1)
        },
    decreases q.len(),
{
    if q.len() == 0 {
        assert(p + q =~= p);
        assert(parse_parts(p).0 + parse_parts(q).0 =~= parse_parts(p).0);
    } else {
        lemma_parse_parts_append(p, q.drop_last());
        assert((p + q).drop_last() =~= p + q.drop_last());
        assert((p + q).last() == q.last());
        if parse_parts(p).1 is None && parse_parts(q.drop_last()).1 is None {
            let x = parse_parts(p).0;
            let y = parse_parts(q.drop_last()).0;
            if let Some(kv) = split_once_eq(trim(q.last())) {
                assert((x + y).push(kv) =~= x + y.push(kv));
            }
        }
    }
}

/// Option strings compose: joining two with a comma gives the assignments of
/// the first followed by those of the second, or the first error met. So
/// updating options with `a` and then with `b` is updating them once with
/// `a,b`.
pub proof fn law_parse_joined(a: Seq<char>, b: Seq<char>)
    ensures
        spec_parse_opts(a.push(',') + b) == match spec_parse_opts(a) {
            Err(e) => Err(e),
            Ok(pa) => match spec_parse_opts(b) {
                Err(e) => Err(e),
                Ok(pb) => Ok(pa + pb),
            },
        },
{
    lemma_split_commas_join(a, b);
    lemma_parse_parts_append(split_commas(a), split_commas(b));
}

/// On a well-formed option string the assignments read before the first
/// error are all of them.
pub proof fn law_assigned_before_error_of_ok(s: Seq<char>)
    ensures
        spec_parse_opts(s) matches Ok(pairs) ==> assigned_before_error(s) == pairs,
{
}

/// `c` with ASCII capitals made small, the only folding FFmpeg does when it
/// compares dictionary keys.
pub open spec fn fold_ascii(c: char) -> char {
    if 'A' <= c && c <= 'Z' {
        ((c as u32) + 32) as char
    } else {
        c
    }
}

/// The form of a key under which FFmpeg's dictionary files it: keys that
/// differ only in the case of ASCII letters are the same key.
pub open spec fn fold_key(k: Seq<char>) -> Seq<char> {
    k.map_values(|c: char| fold_ascii(c))
}

/// The FFmpeg option dictionary that a list of assignments gives when they
/// are set one after the other into an empty one: for each folded key, the
/// entry (key as last spelled, value) of its last assignment.
pub open spec fn dictionary_of(a: Seq<(Seq<char>, Seq<char>)>) -> Map<Seq<char>, (Seq<char>, Seq<char>)>
    decreases a.len(),
{
    if a.len() == 0 {
        Map::empty()
    } else {
        dictionary_of(a.drop_last()).insert(fold_key(a.last().0), a.last())
    }
}

impl Options {
    /// The FFmpeg option dictionary these assignments give.
    pub open spec fn dictionary(&self) -> Map<Seq<char>, (Seq<char>, Seq<char>)> {
        dictionary_of(self@)
    }
}

/// A later assignment overrides every earlier one to the same key, whatever
/// the case of its letters, and leaves the other keys alone.
pub proof fn law_later_assignment_overrides(a: Seq<(Seq<char>, Seq<char>)>, k: Seq<char>, v: Seq<char>)
    ensures
        dictionary_of(a.push((k, v))).contains_key(fold_key(k)),
        dictionary_of(a.push((k, v)))[fold_key(k)] == (k, v),
        forall|key: Seq<char>| key != fold_key(k) ==> (#[trigger] dictionary_of(a.push((k, v))).contains_key(key)
            <==> dictionary_of(a).contains_key(key)) && (dictionary_of(a).contains_key(key)
            ==> dictionary_of(a.push((k, v)))[key] == dictionary_of(a)[key]),
{
    assert(a.push((k, v)).drop_last() =~= a);
}

/// Applying assignments `b` on top of `a` gives `a`'s dictionary with `b`'s
/// entries put in: what setting each entry of `b`'s dictionary into `a`'s
/// does.
pub proof fn law_dictionary_of_append(a: Seq<(Seq<char>, Seq<char>)>, b: Seq<(Seq<char>, Seq<char>)>)
    ensures
        dictionary_of(a + b) == dictionary_of(a).union_prefer_right(dictionary_of(b)),
    decreases b.len(),
{
    if b.len() == 0 {
        assert(a + b =~= a);
        assert(dictionary_of(a).union_prefer_right(dictionary_of(b)) =~= dictionary_of(a));
    } else {
        law_dictionary_of_append(a, b.drop_last());
        assert((a + b).drop_last() =~= a + b.drop_last());
        assert((a + b).last() == b.last());
        let x = b.last();
        assert(dictionary_of(a).union_prefer_right(dictionary_of(b.drop_last())).insert(fold_key(x.0), x)
            =~= dictionary_of(a).union_prefer_right(dictionary_of(b.drop_last()).insert(fold_key(x.0), x)));
    }
}

/// Applying the same assignments twice gives the same dictionary as
/// applying them once.
pub proof fn law_reapply_is_idempotent(a: Seq<(Seq<char>, Seq<char>)>, b: Seq<(Seq<char>, Seq<char>)>)
    ensures
        dictionary_of(a + b + b) == dictionary_of(a + b),
{
    law_dictionary_of_append(a + b, b);
    law_dictionary_of_append(a, b);
    assert(dictionary_of(a).union_prefer_right(dictionary_of(b)).union_prefer_right(dictionary_of(b))
        =~= dictionary_of(a).union_prefer_right(dictionary_of(b)));
}

proof fn lemma_trim_start_cut(s: Seq<char>) -> (a: int)
    ensures
        0 <= a <= s.len(),
        trim_start(s) == s.skip(a),
        forall|i: int| 0 <= i < a ==> is_white_space(#[trigger] s[i]),
        a < s.len() ==> !is_white_space(s[a]),
    decreases s.len(),
{
    if s.len() > 0 && is_white_space(s[0]) {
        let a0 = lemma_trim_start_cut(s.drop_first());
        assert(s.drop_first().skip(a0) =~= s.skip(a0 + 1));
        assert forall|i: int| 0 <= i < a0 + 1 implies is_white_space(#[trigger] s[i]) by {
            if i > 0 {
                assert(s[i] == s.drop_first()[i - 1]);
            }
        }
        a0 + 1
    } else {
        assert(s.skip(0) =~= s);
        0
    }
}

proof fn lemma_trim_end_cut(s: Seq<char>) -> (b: int)
    ensures
        0 <= b <= s.len(),
        trim_end(s) == s.take(b),
        forall|i: int| b <= i < s.len() ==> is_white_space(#[trigger] s[i]),
        b > 0 ==> !is_white_space(s[b - 1]),
    decreases s.len(),
{
    if s.len() > 0 && is_white_space(s.last()) {
        let b0 = lemma_trim_end_cut(s.drop_last());
        assert(s.drop_last().take(b0) =~= s.take(b0));
        assert forall|i: int| b0 <= i < s.len() implies is_white_space(#[trigger] s[i]) by {
            if i < s.len() - 1 {
                assert(s[i] == s.drop_last()[i]);
            }
        }
        b0
    } else {
        assert(s.take(s.len() as int) =~= s);
        s.len() as int
    }
}

/// Trimming removes white space, and only white space, from both ends: the
/// result is a stretch of `s` that neither begins nor ends with white space,
/// and every character cut off before or after it is white space.
pub proof fn law_trim_cuts_white_space(s: Seq<char>)
    ensures
        exists|a: int, b: int| {
            &&& 0 <= a <= b <= s.len()
            &&& trim(s) == s.subrange(a, b)
            &&& forall|i: int| 0 <= i < a ==> is_white_space(#[trigger] s[i])
            &&& forall|i: int| b <= i < s.len() ==> is_white_space(#[trigger] s[i])
            &&& a < b ==> !is_white_space(s[a]) && !is_white_space(s[b - 1])
        },
{
    let a = lemma_trim_start_cut(s);
    let t = s.skip(a);
    let b = lemma_trim_end_cut(t);
    assert(t.take(b) =~= s.subrange(a, a + b));
    assert forall|i: int| a + b <= i < s.len() implies is_white_space(#[trigger] s[i]) by {
        assert(s[i] == t[i - a]);
    }
    if b > 0 {
        assert(s[a] == t[0]);
        assert(s[a + b - 1] == t[b - 1]);
    }
    assert(0 <= a <= a + b <= s.len());
}

/// A part that neither begins nor ends with white space is not changed by
/// trimming.
pub proof fn law_trim_keeps_inner(s: Seq<char>)
    requires
        s.len() > 0 ==> !is_white_space(s[0]) && !is_white_space(s.last()),
    ensures
        trim(s) == s,
{
    assert(trim_start(s) == s);
}

} // verus!
