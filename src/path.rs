//! Absolute filesystem paths compared by their components.

use vstd::prelude::*;

verus! {

/// The separator between the components of a path.
pub open spec fn is_sep(c: char) -> bool {
    c == '/'
}

/// A segment between two separators that names a component: empty segments
/// (doubled or trailing separators) and `.` do not.
pub open spec fn is_kept(seg: Seq<char>) -> bool {
    seg.len() > 0 && seg != seq!['.']
}

/// The segments of `s` between its separators: one more than the number of
/// separators in `s`.
pub open spec fn segments(s: Seq<char>) -> Seq<Seq<char>>
    decreases s.len(),
{
    if s.len() == 0 {
        seq![Seq::<char>::empty()]
    } else {
        let init = segments(s.drop_last());
        if is_sep(s.last()) {
            init.push(Seq::<char>::empty())
        } else {
            init.update(init.len() - 1, init.last().push(s.last()))
        }
    }
}

/// The segments that name a component, in order.
pub open spec fn kept(segs: Seq<Seq<char>>) -> Seq<Seq<char>>
    decreases segs.len(),
{
    if segs.len() == 0 {
        Seq::<Seq<char>>::empty()
    } else {
        let init = kept(segs.drop_last());
        if is_kept(segs.last()) {
            init.push(segs.last())
        } else {
            init
        }
    }
}

/// The components of the path written `s`, leading separator or not.
pub open spec fn components(s: Seq<char>) -> Seq<Seq<char>> {
    kept(segments(s))
}

/// A path written from the root.
pub open spec fn is_absolute(s: Seq<char>) -> bool {
    s.len() > 0 && is_sep(s[0])
}

/// The components of `name` joined onto the path `base`: an absolute name
/// replaces the base.
pub open spec fn join_spec(base: Seq<Seq<char>>, name: Seq<char>) -> Seq<Seq<char>> {
    if is_absolute(name) {
        components(name)
    } else {
        base + components(name)
    }
}

/// The components of a list of strings.
pub open spec fn string_views(v: Seq<String>) -> Seq<Seq<char>> {
    v.map_values(|x: String| x@)
}

pub proof fn lemma_segments_nonempty(s: Seq<char>)
    ensures
        segments(s).len() >= 1,
    decreases s.len(),
{
    if s.len() > 0 {
        lemma_segments_nonempty(s.drop_last());
    }
}

proof fn lemma_is_kept(seg: Seq<char>)
    ensures
        is_kept(seg) == (seg.len() > 0 && !(seg.len() == 1 && seg[0] == '.')),
{
    let dot = seq!['.'];
    assert(dot.len() == 1 && dot[0] == '.');
    if seg.len() == 1 && seg[0] == '.' {
        assert(seg =~= dot);
    }
}

/// A name of one step of a path: not empty, not `.`, no separator in it.
pub open spec fn is_component(seg: Seq<char>) -> bool {
    is_kept(seg) && forall|k: int| 0 <= k < seg.len() ==> !is_sep(#[trigger] seg[k])
}

/// Every step of the path is a proper component.
pub open spec fn well_formed_parts(p: Seq<Seq<char>>) -> bool {
    forall|i: int| 0 <= i < p.len() ==> is_component(#[trigger] p[i])
}

proof fn lemma_segments_no_sep(s: Seq<char>)
    ensures
        forall|i: int, k: int|
            0 <= i < segments(s).len() && 0 <= k < segments(s)[i].len() ==> !is_sep(
                #[trigger] segments(s)[i][k],
            ),
    decreases s.len(),
{
    lemma_segments_nonempty(s);
    if s.len() > 0 {
        lemma_segments_no_sep(s.drop_last());
        lemma_segments_nonempty(s.drop_last());
    }
}

proof fn lemma_kept_well_formed(segs: Seq<Seq<char>>)
    requires
        forall|i: int, k: int| 0 <= i < segs.len() && 0 <= k < segs[i].len() ==> !is_sep(
            #[trigger] segs[i][k],
        ),
    ensures
        well_formed_parts(kept(segs)),
    decreases segs.len(),
{
    if segs.len() > 0 {
        let init = segs.drop_last();
        assert forall|i: int, k: int| 0 <= i < init.len() && 0 <= k < init[i].len() implies !is_sep(
            #[trigger] init[i][k],
        ) by {
            assert(init[i] == segs[i]);
        }
        lemma_kept_well_formed(init);
        let x = segs.last();
        assert forall|k: int| 0 <= k < x.len() implies !is_sep(#[trigger] x[k]) by {
            assert(segs[segs.len() - 1][k] == x[k]);
        }
    }
}

/// The components read from any text are proper components.
pub proof fn lemma_components_well_formed(s: Seq<char>)
    ensures
        well_formed_parts(components(s)),
{
    lemma_segments_no_sep(s);
    lemma_kept_well_formed(segments(s));
}

proof fn lemma_segments_append_plain(b: Seq<char>, x: Seq<char>)
    requires
        forall|k: int| 0 <= k < x.len() ==> !is_sep(#[trigger] x[k]),
    ensures
        segments(b + x) == segments(b).update(
            segments(b).len() - 1,
            segments(b).last() + x,
        ),
    decreases x.len(),
{
    lemma_segments_nonempty(b);
    if x.len() == 0 {
        assert(b + x =~= b);
        assert(segments(b).last() + x =~= segments(b).last());
        assert(segments(b).update(segments(b).len() - 1, segments(b).last()) =~= segments(b));
    } else {
        let y = x.drop_last();
        let c = x.last();
        assert(!is_sep(x[x.len() - 1]));
        lemma_segments_append_plain(b, y);
        assert((b + x).drop_last() =~= b + y);
        assert((b + x).last() == c);
        let sb = segments(b);
        let sy = segments(b + y);
        assert(sy.last() == sb.last() + y);
        assert((sb.last() + y).push(c) =~= sb.last() + x);
        assert(sy.update(sy.len() - 1, sy.last().push(c)) =~= sb.update(
            sb.len() - 1,
            sb.last() + x,
        ));
    }
}

proof fn lemma_spelled_segments(p: Seq<Seq<char>>)
    requires
        well_formed_parts(p),
    ensures
        segments(spelled(p)) == seq![Seq::<char>::empty()] + p,
        p.len() > 0 ==> spelled(p).len() > 0 && spelled(p)[0] == '/',
    decreases p.len(),
{
    if p.len() == 0 {
        assert(seq![Seq::<char>::empty()] + p =~= seq![Seq::<char>::empty()]);
    } else {
        let init = p.drop_last();
        let x = p.last();
        assert(is_component(p[p.len() - 1]));
        assert forall|i: int| 0 <= i < init.len() implies is_component(#[trigger] init[i]) by {
            assert(init[i] == p[i]);
        }
        lemma_spelled_segments(init);
        let a = spelled(init) + seq!['/'];
        assert(a.drop_last() =~= spelled(init));
        assert(segments(a) == segments(spelled(init)).push(Seq::<char>::empty()));
        lemma_segments_append_plain(a, x);
        assert(Seq::<char>::empty() + x =~= x);
        assert(segments(a + x) =~= seq![Seq::<char>::empty()] + p);
        if init.len() == 0 {
            assert(spelled(init) =~= Seq::<char>::empty());
        }
        assert(spelled(p) == a + x);
        assert((a + x)[0] == a[0]);
    }
}

proof fn lemma_kept_after_empty(p: Seq<Seq<char>>)
    requires
        well_formed_parts(p),
    ensures
        kept(seq![Seq::<char>::empty()] + p) == p,
    decreases p.len(),
{
    let e = seq![Seq::<char>::empty()];
    if p.len() == 0 {
        assert(e + p =~= e);
        assert(e.drop_last() =~= Seq::<Seq<char>>::empty());
        assert(kept(e.drop_last()) == Seq::<Seq<char>>::empty());
        assert(!is_kept(e.last()));
        assert(kept(e) == kept(e.drop_last()));
    } else {
        let init = p.drop_last();
        assert forall|i: int| 0 <= i < init.len() implies is_component(#[trigger] init[i]) by {
            assert(init[i] == p[i]);
        }
        lemma_kept_after_empty(init);
        assert((e + p).drop_last() =~= e + init);
        assert((e + p).last() == p[p.len() - 1]);
        assert(is_component(p[p.len() - 1]));
        assert(init.push(p.last()) =~= p);
    }
}

/// Writing a path out and reading it back gives the same path: the text
/// starts at the root and its components are the path's.
pub proof fn lemma_text_round_trip(p: Seq<Seq<char>>)
    requires
        well_formed_parts(p),
    ensures
        is_absolute(path_text(p)),
        components(path_text(p)) == p,
{
    if p.len() == 0 {
        let t = seq!['/'];
        assert(t.drop_last() =~= Seq::<char>::empty());
        assert(segments(t.drop_last()) == seq![Seq::<char>::empty()]);
        assert(is_sep(t.last()));
        assert(segments(t) == seq![Seq::<char>::empty()].push(Seq::<char>::empty()));
        lemma_kept_after_empty(p);
        assert(seq![Seq::<char>::empty()] + p =~= seq![Seq::<char>::empty()]);
        let two = seq![Seq::<char>::empty()].push(Seq::<char>::empty());
        assert(two.drop_last() =~= seq![Seq::<char>::empty()]);
        assert(!is_kept(Seq::<char>::empty()));
    } else {
        lemma_spelled_segments(p);
        lemma_kept_after_empty(p);
    }
}

proof fn lemma_concat_well_formed(a: Seq<Seq<char>>, b: Seq<Seq<char>>)
    requires
        well_formed_parts(a),
        well_formed_parts(b),
    ensures
        well_formed_parts(a + b),
{
    assert forall|i: int| 0 <= i < (a + b).len() implies is_component(#[trigger] (a + b)[i]) by {
        if i < a.len() {
            assert((a + b)[i] == a[i]);
        } else {
            assert((a + b)[i] == b[i - a.len()]);
        }
    }
}

/// A trailing separator does not change the path written `s`: `a/b/`
/// names what `a/b` names, and so does `a/b//`.
pub proof fn lemma_trailing_separator(s: Seq<char>)
    ensures
        components(s.push('/')) == components(s),
{
    assert(s.push('/').drop_last() =~= s);
    let segs = segments(s);
    assert(segments(s.push('/')) == segs.push(Seq::<char>::empty()));
    assert(segs.push(Seq::<char>::empty()).drop_last() =~= segs);
}

/// A directory name spelled with a trailing separator joins onto a root as
/// the name without it, so both spellings give one project path.
pub proof fn lemma_join_trailing_separator(base: Seq<Seq<char>>, name: Seq<char>)
    requires
        name.len() > 0,
    ensures
        join_spec(base, name.push('/')) == join_spec(base, name),
{
    lemma_trailing_separator(name);
    assert(name.push('/')[0] == name[0]);
}

/// An absolute path, held as its components. Two spellings of one location
/// (doubled or trailing separators, `.` segments) give the same value.
#[derive(Debug)]
pub struct ProjectPath {
    parts: Vec<String>,
}

impl View for ProjectPath {
    type V = Seq<Seq<char>>;

    closed spec fn view(&self) -> Seq<Seq<char>> {
        string_views(self.parts@)
    }
}

/// The components of the path written `s`.
fn parse_components(s: &str) -> (r: Vec<String>)
    ensures
        string_views(r@) == components(s@),
        well_formed_parts(string_views(r@)),
{
    proof {
        lemma_components_well_formed(s@);
    }
    let n = s.unicode_len();
    let mut parts: Vec<String> = Vec::new();
    let mut start: usize = 0;
    let mut i: usize = 0;
    let ghost mut done: Seq<Seq<char>> = seq![];
    assert(s@.subrange(0, 0) =~= Seq::<char>::empty());
    assert(done.push(s@.subrange(0, 0)) =~= seq![Seq::<char>::empty()]);
    while i < n
        invariant
            n == s@.len(),
            start <= i <= n,
            segments(s@.subrange(0, i as int)) == done.push(s@.subrange(start as int, i as int)),
            kept(done) == string_views(parts@),
        decreases n - i,
    {
        let c = s.get_char(i);
        let ghost seg = s@.subrange(start as int, i as int);
        assert(s@.subrange(0, i + 1).drop_last() =~= s@.subrange(0, i as int));
        if c == '/' {
            let keep = i > start && !(i == start + 1 && s.get_char(start) == '.');
            proof { lemma_is_kept(seg); }
            if keep {
                let ghost before = parts@;
                let part = s.substring_char(start, i).to_owned();
                parts.push(part);
                assert(string_views(parts@) =~= string_views(before).push(seg));
            }
            proof {
                assert(done.push(seg).drop_last() =~= done);
                done = done.push(seg);
            }
            start = i + 1;
            assert(s@.subrange(start as int, i + 1) =~= Seq::<char>::empty());
        } else {
            assert(s@.subrange(start as int, i + 1) =~= seg.push(c));
        }
        i = i + 1;
    }
    let ghost seg = s@.subrange(start as int, n as int);
    assert(s@.subrange(0, n as int) =~= s@);
    assert(done.push(seg).drop_last() =~= done);
    let keep = n > start && !(n == start + 1 && s.get_char(start) == '.');
    proof { lemma_is_kept(seg); }
    if keep {
        let ghost before = parts@;
        let part = s.substring_char(start, n).to_owned();
        parts.push(part);
        assert(string_views(parts@) =~= string_views(before).push(seg));
    }
    parts
}

/// The path written out from the root, components joined by separators.
pub open spec fn spelled(parts: Seq<Seq<char>>) -> Seq<char>
    decreases parts.len(),
{
    if parts.len() == 0 {
        Seq::<char>::empty()
    } else {
        spelled(parts.drop_last()) + seq!['/'] + parts.last()
    }
}

/// The text of an absolute path: the root alone is a single separator.
pub open spec fn path_text(parts: Seq<Seq<char>>) -> Seq<char> {
    if parts.len() == 0 {
        seq!['/']
    } else {
        spelled(parts)
    }
}

impl ProjectPath {
    #[verifier::type_invariant]
    spec fn inv(self) -> bool {
        well_formed_parts(string_views(self.parts@))
    }

    /// The path written `s`, which must start at the root.
    pub fn from_absolute(s: &str) -> (r: Option<ProjectPath>)
        ensures
            r is Some <==> is_absolute(s@),
            r matches Some(p) ==> p@ == components(s@) && well_formed_parts(p@),
    {
        if s.unicode_len() > 0 && s.get_char(0) == '/' {
            Some(ProjectPath { parts: parse_components(s) })
        } else {
            None
        }
    }

    /// This path with `name` joined onto it; an absolute `name` replaces it.
    pub fn join(&self, name: &str) -> (r: ProjectPath)
        ensures
            r@ == join_spec(self@, name@),
            well_formed_parts(r@),
    {
        proof {
            use_type_invariant(self);
        }
        let tail = parse_components(name);
        if name.unicode_len() > 0 && name.get_char(0) == '/' {
            ProjectPath { parts: tail }
        } else {
            let mut parts = self.parts.clone();
            let ghost before = parts@;
            let mut i: usize = 0;
            while i < tail.len()
                invariant
                    i <= tail.len(),
                    string_views(parts@) == string_views(self.parts@) + string_views(
                        tail@.subrange(0, i as int),
                    ),
                decreases tail.len() - i,
            {
                let ghost prev = parts@;
                parts.push(tail[i].clone());
                assert(string_views(tail@.subrange(0, i + 1)) =~= string_views(
                    tail@.subrange(0, i as int),
                ).push(tail@[i as int]@));
                assert(string_views(parts@) =~= string_views(prev).push(tail@[i as int]@));
                i = i + 1;
            }
            assert(tail@.subrange(0, tail.len() as int) =~= tail@);
            proof {
                lemma_concat_well_formed(self@, string_views(tail@));
            }
            ProjectPath { parts }
        }
    }

    /// A copy of this path.
    pub fn clone_path(&self) -> (r: ProjectPath)
        ensures
            r@ == self@,
    {
        proof {
            use_type_invariant(self);
        }
        let parts = self.parts.clone();
        assert(string_views(parts@) =~= string_views(self.parts@));
        ProjectPath { parts }
    }

    /// Where the template entry `self`, which lies under `from`, goes when the
    /// tree at `from` is copied to `onto`; `None` for an entry outside it.
    pub fn rebase(&self, from: &ProjectPath, onto: &ProjectPath) -> (r: Option<ProjectPath>)
        ensures
            r is Some <==> self@.len() >= from@.len() && self@.subrange(0, from@.len() as int)
                == from@,
            r matches Some(p) ==> p@ == onto@ + self@.subrange(from@.len() as int, self@.len() as int)
                && well_formed_parts(p@),
    {
        proof {
            use_type_invariant(self);
            use_type_invariant(onto);
        }
        let n = from.parts.len();
        if self.parts.len() < n {
            return None;
        }
        let mut i: usize = 0;
        while i < n
            invariant
                n == from@.len() <= self@.len(),
                i <= n,
                forall|j: int| 0 <= j < i ==> self@[j] == from@[j],
            decreases n - i,
        {
            if self.parts[i] != from.parts[i] {
                assert(self@.subrange(0, n as int)[i as int] != from@[i as int]);
                return None;
            }
            i = i + 1;
        }
        assert(self@.subrange(0, n as int) =~= from@);
        let mut parts = onto.parts.clone();
        let mut k: usize = n;
        assert(string_views(parts@) =~= onto@ + self@.subrange(n as int, n as int));
        while k < self.parts.len()
            invariant
                n <= k <= self@.len(),
                string_views(parts@) == onto@ + self@.subrange(n as int, k as int),
            decreases self.parts.len() - k,
        {
            let ghost prev = parts@;
            parts.push(self.parts[k].clone());
            assert(string_views(parts@) =~= string_views(prev).push(self@[k as int]));
            assert(self@.subrange(n as int, k + 1) =~= self@.subrange(n as int, k as int).push(
                self@[k as int],
            ));
            k = k + 1;
        }
        proof {
            let rest = self@.subrange(n as int, self@.len() as int);
            assert forall|j: int| 0 <= j < rest.len() implies is_component(#[trigger] rest[j]) by {
                assert(rest[j] == self@[n + j]);
            }
            lemma_concat_well_formed(onto@, rest);
        }
        Some(ProjectPath { parts })
    }

    /// Whether the two paths name the same location.
    pub fn same_as(&self, other: &ProjectPath) -> (r: bool)
        ensures
            r == (self@ == other@),
    {
        if self.parts.len() != other.parts.len() {
            assert(self@.len() != other@.len());
            return false;
        }
        let mut i: usize = 0;
        while i < self.parts.len()
            invariant
                i <= self.parts.len() == other.parts.len(),
                forall|j: int| 0 <= j < i ==> self@[j] == other@[j],
            decreases self.parts.len() - i,
        {
            if self.parts[i] != other.parts[i] {
                assert(self@[i as int] != other@[i as int]);
                return false;
            }
            i = i + 1;
        }
        assert(self@ =~= other@);
        true
    }

    /// The path written out from the root.
    pub fn to_path_string(&self) -> (r: String)
        ensures
            r@ == path_text(self@),
            is_absolute(r@),
            components(r@) == self@,
    {

        proof {
            reveal_strlit("/");
        }
        let mut out = String::new();
        let mut i: usize = 0;
        while i < self.parts.len()
            invariant
                i <= self.parts.len(),
                out@ == spelled(self@.subrange(0, i as int)),
            decreases self.parts.len() - i,
        {
            let ghost prev = out@;
            assert(self@.subrange(0, i + 1).drop_last() =~= self@.subrange(0, i as int));
            assert(self@.subrange(0, i + 1).last() == self.parts@[i as int]@);
            out.append("/");
            out.append(self.parts[i].as_str());
            proof {
                reveal_strlit("/");
                assert("/"@ =~= seq!['/']);
            }
            assert(out@ == prev + seq!['/'] + self.parts@[i as int]@);
            i = i + 1;
        }
        assert(self@.subrange(0, i as int) =~= self@);
        if i == 0 {
            out.append("/");
        }
        proof {
            use_type_invariant(self);
            lemma_text_round_trip(self@);
            assert(out@ == path_text(self@));
            assert(components(out@) == self@);
        }
        out
    }
}

impl PartialEq for ProjectPath {
    fn eq(&self, other: &ProjectPath) -> (r: bool) {
        self.same_as(other)
    }
}

impl vstd::std_specs::cmp::PartialEqSpecImpl for ProjectPath {
    open spec fn obeys_eq_spec() -> bool {
        true
    }

    open spec fn eq_spec(&self, other: &ProjectPath) -> bool {
        self@ == other@
    }
}

} // verus!
