//! Paths compared as `std::path::Path` compares them on Unix: by their components, so
//! that `a/./b`, `a//b` and `a/b/` name the same path as `a/b`.
use vstd::prelude::*;

verus! {

/// The component that a finished run of characters between separators gives: none for
/// an empty run or `.`, the run itself otherwise.
pub open spec fn flush_run(run: Seq<char>) -> Seq<Seq<char>> {
    if run.len() == 0 || run == seq!['.'] {
        seq![]
    } else {
        seq![run]
    }
}

/// The components of `p` after the run `run` already read: `p` split at `/`, without
/// empty runs and without `.` runs.
pub open spec fn segments_from(p: Seq<char>, run: Seq<char>) -> Seq<Seq<char>>
    decreases p.len(),
{
    if p.len() == 0 {
        flush_run(run)
    } else if p[0] == '/' {
        flush_run(run) + segments_from(p.drop_first(), seq![])
    } else {
        segments_from(p.drop_first(), run.push(p[0]))
    }
}

/// The components of a Unix path: a leading `/` gives the root component (`/`), a
/// leading `.` standing alone or before a `/` gives the current-directory component
/// (`.`), and the rest gives its non-empty runs between separators other than `.`.
pub open spec fn path_components(p: Seq<char>) -> Seq<Seq<char>> {
    if p.len() > 0 && p[0] == '/' {
        seq![seq!['/']] + segments_from(p.drop_first(), seq![])
    } else if p.len() > 0 && p[0] == '.' && (p.len() == 1 || p[1] == '/') {
        seq![seq!['.']] + segments_from(p.drop_first(), seq![])
    } else {
        segments_from(p, seq![])
    }
}

/// Two paths are the same path: they have the same components.
pub open spec fn same_path(a: Seq<char>, b: Seq<char>) -> bool {
    path_components(a) == path_components(b)
}

/// Appends the component that the run `run` gives.
fn push_run(out: &mut Vec<Vec<char>>, run: Vec<char>)
    ensures
        final(out).deep_view() == old(out).deep_view() + flush_run(run@),
{
    let ghost before = out.deep_view();
    let is_dot = run.len() == 1 && run[0] == '.';
    if run.len() == 0 || is_dot {
        assert(run@.len() == 0 || run@ =~= seq!['.']);
        assert(out.deep_view() =~= before + flush_run(run@));
    } else {
        assert(run@ != seq!['.']) by {
            if run@ == seq!['.'] {
                assert(run@[0] == '.');
            }
        }
        let ghost rv = run@;
        assert(run.deep_view() =~= rv);
        out.push(run);
        assert(out.deep_view()[out@.len() - 1] == rv);
        assert(out.deep_view() =~= before + flush_run(rv));
    }
}

/// The components of the path `p`.
pub fn components(p: &String) -> (r: Vec<Vec<char>>)
    ensures
        r.deep_view() == path_components(p@),
{
    let s = p.as_str();
    let n = s.unicode_len();
    let mut out: Vec<Vec<char>> = Vec::new();
    let mut start: usize = 0;
    if n > 0 && s.get_char(0) == '/' {
        let mut root: Vec<char> = Vec::new();
        root.push('/');
        assert(root.deep_view() =~= seq!['/']);
        out.push(root);
        assert(out.deep_view() =~= seq![seq!['/']]);
        start = 1;
    } else if n > 0 && s.get_char(0) == '.' && (n == 1 || s.get_char(1) == '/') {
        let mut cur: Vec<char> = Vec::new();
        cur.push('.');
        assert(cur.deep_view() =~= seq!['.']);
        out.push(cur);
        assert(out.deep_view() =~= seq![seq!['.']]);
        start = 1;
    }
    let ghost prefix = out.deep_view();
    assert(prefix + segments_from(p@.skip(start as int), seq![]) == path_components(p@)) by {
        if start == 1 {
            assert(p@.skip(1) =~= p@.drop_first());
            if p@[0] == '/' {
                assert(prefix =~= seq![seq!['/']]);
            } else {
                assert(prefix =~= seq![seq!['.']]);
            }
        } else {
            assert(p@.skip(0) =~= p@);
            assert(prefix =~= Seq::<Seq<char>>::empty());
        }
    }
    let mut run: Vec<char> = Vec::new();
    let mut i = start;
    while i < n
        invariant
            n == p@.len(),
            s@ == p@,
            start <= i <= n,
            out.deep_view() + segments_from(p@.skip(i as int), run@) == path_components(p@),
        decreases n - i,
    {
        let c = s.get_char(i);
        let ghost rest = p@.skip(i as int);
        assert(rest[0] == c);
        assert(rest.drop_first() =~= p@.skip(i + 1));
        if c == '/' {
            let ghost before = out.deep_view();
            let ghost old_run = run@;
            push_run(&mut out, run);
            run = Vec::new();
            assert(segments_from(rest, old_run) == flush_run(old_run) + segments_from(
                p@.skip(i + 1),
                seq![],
            ));
            assert(run@ =~= Seq::<char>::empty());
            assert(out.deep_view() + segments_from(p@.skip(i + 1), run@) =~= before
                + segments_from(rest, old_run));
        } else {
            run.push(c);
        }
        i = i + 1;
    }
    let ghost before = out.deep_view();
    let ghost last = run@;
    assert(p@.skip(i as int) =~= Seq::<char>::empty());
    push_run(&mut out, run);
    assert(out.deep_view() =~= before + segments_from(p@.skip(i as int), last));
    out
}

/// Whether two component lists are equal.
pub fn same_components(a: &Vec<Vec<char>>, b: &Vec<Vec<char>>) -> (r: bool)
    ensures
        r == (a.deep_view() == b.deep_view()),
{
    if a.len() != b.len() {
        assert(a.deep_view().len() != b.deep_view().len());
        return false;
    }
    let mut i: usize = 0;
    while i < a.len()
        invariant
            a@.len() == b@.len(),
            i <= a@.len(),
            forall|j: int| 0 <= j < i ==> a.deep_view()[j] == b.deep_view()[j],
        decreases a@.len() - i,
    {
        let x = &a[i];
        let y = &b[i];
        assert(a.deep_view()[i as int] =~= x@);
        assert(b.deep_view()[i as int] =~= y@);
        if x.len() != y.len() {
            assert(a.deep_view()[i as int].len() != b.deep_view()[i as int].len());
            return false;
        }
        let mut k: usize = 0;
        while k < x.len()
            invariant
                x@.len() == y@.len(),
                k <= x@.len(),
                i < a@.len(),
                a@.len() == b@.len(),
                a.deep_view()[i as int] == x@,
                b.deep_view()[i as int] == y@,
                forall|m: int| 0 <= m < k ==> x@[m] == y@[m],
            decreases x@.len() - k,
        {
            if x[k] != y[k] {
                assert(a.deep_view()[i as int][k as int] != b.deep_view()[i as int][k as int]);
                return false;
            }
            k = k + 1;
        }
        assert(x@ =~= y@);
        assert(a.deep_view()[i as int] == x@);
        assert(b.deep_view()[i as int] == y@);
        i = i + 1;
    }
    assert(a.deep_view() =~= b.deep_view());
    true
}

/// Whether `a` and `b` name the same path.
pub fn paths_equal(a: &String, b: &String) -> (r: bool)
    ensures
        r == same_path(a@, b@),
{
    let ka = components(a);
    let kb = components(b);
    same_components(&ka, &kb)
}

/// A file or directory name: a non-empty run of characters without `/` other than `.`.
pub open spec fn is_name(x: Seq<char>) -> bool {
    x.len() > 0 && !x.contains('/') && x != seq!['.']
}

/// The names joined by `/` (a relative path); the empty path for no names.
pub open spec fn joined(names: Seq<Seq<char>>) -> Seq<char>
    decreases names.len(),
{
    if names.len() == 0 {
        seq![]
    } else if names.len() == 1 {
        names[0]
    } else {
        joined(names.drop_last()) + seq!['/'] + names.last()
    }
}

proof fn lemma_segments_no_slash(x: Seq<char>, run: Seq<char>)
    requires
        !x.contains('/'),
    ensures
        segments_from(x, run) == flush_run(run + x),
    decreases x.len(),
{
    if x.len() == 0 {
        assert(run + x =~= run);
    } else {
        assert(x[0] != '/') by {
            if x[0] == '/' {
                assert(x.contains('/'));
            }
        }
        assert(!x.drop_first().contains('/')) by {
            if x.drop_first().contains('/') {
                let j = choose|j: int| 0 <= j < x.drop_first().len() && x.drop_first()[j] == '/';
                assert(x[j + 1] == '/');
            }
        }
        lemma_segments_no_slash(x.drop_first(), run.push(x[0]));
        assert(run.push(x[0]) + x.drop_first() =~= run + x);
    }
}

proof fn lemma_segments_split(a: Seq<char>, b: Seq<char>, run: Seq<char>)
    ensures
        segments_from(a + seq!['/'] + b, run) == segments_from(a, run) + segments_from(b, seq![]),
    decreases a.len(),
{
    let p = a + seq!['/'] + b;
    if a.len() == 0 {
        assert(p[0] == '/');
        assert(p.drop_first() =~= b);
    } else {
        assert(p[0] == a[0]);
        assert(p.drop_first() =~= a.drop_first() + seq!['/'] + b);
        if a[0] == '/' {
            lemma_segments_split(a.drop_first(), b, seq![]);
            assert(segments_from(p, run) =~= segments_from(a, run) + segments_from(b, seq![]));
        } else {
            lemma_segments_split(a.drop_first(), b, run.push(a[0]));
        }
    }
}

proof fn lemma_segments_joined(names: Seq<Seq<char>>)
    requires
        forall|i: int| 0 <= i < names.len() ==> is_name(#[trigger] names[i]),
    ensures
        segments_from(joined(names), seq![]) == names,
    decreases names.len(),
{
    if names.len() == 0 {
        assert(segments_from(seq![], seq![]) =~= Seq::<Seq<char>>::empty());
    } else if names.len() == 1 {
        assert(is_name(names[0]));
        lemma_segments_no_slash(names[0], seq![]);
        assert(Seq::<char>::empty() + names[0] =~= names[0]);
        assert(flush_run(names[0]) =~= names);
    } else {
        let front = names.drop_last();
        assert forall|i: int| 0 <= i < front.len() implies is_name(#[trigger] front[i]) by {
            assert(front[i] == names[i]);
        }
        lemma_segments_joined(front);
        lemma_segments_split(joined(front), names.last(), seq![]);
        assert(is_name(names[names.len() - 1]));
        lemma_segments_no_slash(names.last(), seq![]);
        assert(Seq::<char>::empty() + names.last() =~= names.last());
        assert(front + seq![names.last()] =~= names);
    }
}

proof fn lemma_joined_starts_with_first(names: Seq<Seq<char>>)
    requires
        names.len() >= 1,
    ensures
        joined(names).len() >= names[0].len(),
        forall|i: int| 0 <= i < names[0].len() ==> joined(names)[i] == names[0][i],
        names.len() >= 2 ==> joined(names).len() > names[0].len(),
    decreases names.len(),
{
    if names.len() >= 2 {
        lemma_joined_starts_with_first(names.drop_last());
        assert(names.drop_last()[0] == names[0]);
    }
}

/// A relative path made of names joined by `/` has exactly those names as its
/// components, each whole and in order.
pub proof fn lemma_components_of_names(names: Seq<Seq<char>>)
    requires
        forall|i: int| 0 <= i < names.len() ==> is_name(#[trigger] names[i]),
    ensures
        path_components(joined(names)) == names,
{
    let p = joined(names);
    lemma_segments_joined(names);
    if names.len() > 0 {
        lemma_joined_starts_with_first(names);
        assert(is_name(names[0]));
        let n0 = names[0];
        assert(p[0] == n0[0]);
        assert(n0[0] != '/') by {
            if n0[0] == '/' {
                assert(n0.contains('/'));
            }
        }
        if n0[0] == '.' {
            if n0.len() == 1 {
                assert(n0 =~= seq!['.']);
            } else {
                assert(p[1] == n0[1]);
                assert(n0[1] != '/') by {
                    if n0[1] == '/' {
                        assert(n0.contains('/'));
                    }
                }
            }
        }
    }
}

/// An absolute path made of `/` and names joined by `/` has the root and then exactly
/// those names as its components.
pub proof fn lemma_components_of_absolute(names: Seq<Seq<char>>)
    requires
        forall|i: int| 0 <= i < names.len() ==> is_name(#[trigger] names[i]),
    ensures
        path_components(seq!['/'] + joined(names)) == seq![seq!['/']] + names,
{
    let p = seq!['/'] + joined(names);
    assert(p.drop_first() =~= joined(names));
    lemma_segments_joined(names);
}

/// Two paths made of names joined by `/` are the same path exactly when they are made
/// of the same names; likewise for absolute paths.
pub proof fn lemma_same_path_iff_same_names(a: Seq<Seq<char>>, b: Seq<Seq<char>>)
    requires
        forall|i: int| 0 <= i < a.len() ==> is_name(#[trigger] a[i]),
        forall|i: int| 0 <= i < b.len() ==> is_name(#[trigger] b[i]),
    ensures
        same_path(joined(a), joined(b)) == (a == b),
        same_path(seq!['/'] + joined(a), seq!['/'] + joined(b)) == (a == b),
{
    lemma_components_of_names(a);
    lemma_components_of_names(b);
    lemma_components_of_absolute(a);
    lemma_components_of_absolute(b);
    if seq![seq!['/']] + a == seq![seq!['/']] + b {
        assert(a =~= (seq![seq!['/']] + a).drop_first());
        assert(b =~= (seq![seq!['/']] + b).drop_first());
    }
}

proof fn lemma_segments_neutral_run(a: Seq<char>, m: Seq<char>, b: Seq<char>, run: Seq<char>)
    requires
        m.len() == 0 || m == seq!['.'],
    ensures
        segments_from(a + seq!['/'] + m + seq!['/'] + b, run) == segments_from(
            a + seq!['/'] + b,
            run,
        ),
{
    assert(!m.contains('/')) by {
        if m.contains('/') {
            let j = choose|j: int| 0 <= j < m.len() && m[j] == '/';
            assert(m[j] == '.');
        }
    }
    assert(a + seq!['/'] + m + seq!['/'] + b =~= a + seq!['/'] + (m + seq!['/'] + b));
    lemma_segments_split(a, m + seq!['/'] + b, run);
    lemma_segments_split(m, b, seq![]);
    lemma_segments_no_slash(m, seq![]);
    assert(Seq::<char>::empty() + m =~= m);
    assert(flush_run(m) =~= Seq::<Seq<char>>::empty());
    lemma_segments_split(a, b, run);
    assert(segments_from(a + seq!['/'] + m + seq!['/'] + b, run) =~= segments_from(
        a + seq!['/'] + b,
        run,
    ));
}

/// A doubled separator or a `.` between separators changes nothing: `a//b` and `a/./b`
/// name the same path as `a/b` (for a non-empty `a`).
pub proof fn lemma_empty_and_dot_runs_ignored(a: Seq<char>, m: Seq<char>, b: Seq<char>)
    requires
        a.len() > 0,
        m.len() == 0 || m == seq!['.'],
    ensures
        same_path(a + seq!['/'] + m + seq!['/'] + b, a + seq!['/'] + b),
{
    let p = a + seq!['/'] + m + seq!['/'] + b;
    let q = a + seq!['/'] + b;
    assert(p[0] == q[0]);
    assert(p[1] == q[1]);
    lemma_segments_neutral_run(a, m, b, seq![]);
    assert(p.drop_first() =~= a.drop_first() + seq!['/'] + m + seq!['/'] + b);
    assert(q.drop_first() =~= a.drop_first() + seq!['/'] + b);
    lemma_segments_neutral_run(a.drop_first(), m, b, seq![]);
}

/// A trailing separator changes nothing: `a/` names the same path as `a` (for a
/// non-empty `a`).
pub proof fn lemma_trailing_separator_ignored(a: Seq<char>)
    requires
        a.len() > 0,
    ensures
        same_path(a + seq!['/'], a),
{
    let p = a + seq!['/'];
    let e = Seq::<char>::empty();
    assert(p =~= a + seq!['/'] + e);
    lemma_segments_split(a, e, seq![]);
    assert(segments_from(e, seq![]) =~= Seq::<Seq<char>>::empty());
    assert(segments_from(p, seq![]) =~= segments_from(a, seq![]));
    assert(p.drop_first() =~= a.drop_first() + seq!['/'] + e);
    lemma_segments_split(a.drop_first(), e, seq![]);
    assert(segments_from(p.drop_first(), seq![]) =~= segments_from(a.drop_first(), seq![]));
    assert(p[0] == a[0]);
    if a.len() > 1 {
        assert(p[1] == a[1]);
    }
}

} // verus!
