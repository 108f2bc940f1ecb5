use vstd::prelude::*;
use vstd::relations::*;

verus! {

/// Lexicographic order on file names, character by character: `a` comes no later than `b`.
/// This is the order of their UTF-8 bytes, the order in which `OsStr` values compare.
pub open spec fn name_le(a: Seq<char>, b: Seq<char>) -> bool
    decreases a.len(),
{
    if a.len() == 0 {
        true
    } else if b.len() == 0 {
        false
    } else if a[0] != b[0] {
        a[0] < b[0]
    } else {
        name_le(a.drop_first(), b.drop_first())
    }
}

/// The order in which the newest screenshots come first: by name, greatest first.
pub open spec fn name_ge(a: Seq<char>, b: Seq<char>) -> bool {
    name_le(b, a)
}

pub proof fn lemma_name_le_reflexive(a: Seq<char>)
    ensures
        name_le(a, a),
    decreases a.len(),
{
    if a.len() > 0 {
        lemma_name_le_reflexive(a.drop_first());
    }
}

pub proof fn lemma_name_le_antisymmetric(a: Seq<char>, b: Seq<char>)
    requires
        name_le(a, b),
        name_le(b, a),
    ensures
        a == b,
    decreases a.len(),
{
    if a.len() == 0 {
        assert(b.len() == 0 || !name_le(b, a));
        assert(a =~= b);
    } else {
        lemma_name_le_antisymmetric(a.drop_first(), b.drop_first());
        assert(a =~= seq![a[0]] + a.drop_first());
        assert(b =~= seq![b[0]] + b.drop_first());
    }
}

pub proof fn lemma_name_le_transitive(a: Seq<char>, b: Seq<char>, c: Seq<char>)
    requires
        name_le(a, b),
        name_le(b, c),
    ensures
        name_le(a, c),
    decreases a.len(),
{
    if a.len() > 0 && b.len() > 0 && c.len() > 0 && a[0] == b[0] && b[0] == c[0] {
        lemma_name_le_transitive(a.drop_first(), b.drop_first(), c.drop_first());
    }
}

pub proof fn lemma_name_le_total(a: Seq<char>, b: Seq<char>)
    ensures
        name_le(a, b) || name_le(b, a),
    decreases a.len(),
{
    if a.len() > 0 && b.len() > 0 && a[0] == b[0] {
        lemma_name_le_total(a.drop_first(), b.drop_first());
    }
}

/// Newest-first is a total order on names.
pub proof fn lemma_name_ge_total_ordering()
    ensures
        total_ordering(|a: Seq<char>, b: Seq<char>| name_ge(a, b)),
{
    let r = |a: Seq<char>, b: Seq<char>| name_ge(a, b);
    assert forall|x: Seq<char>| #[trigger] r(x, x) by {
        lemma_name_le_reflexive(x);
    }
    assert forall|x: Seq<char>, y: Seq<char>| #[trigger] r(x, y) && #[trigger] r(y, x) implies x == y by {
        lemma_name_le_antisymmetric(x, y);
    }
    assert forall|x: Seq<char>, y: Seq<char>, z: Seq<char>| #[trigger] r(x, y) && #[trigger] r(y, z) implies r(x, z) by {
        lemma_name_le_transitive(z, y, x);
    }
    assert forall|x: Seq<char>, y: Seq<char>| #[trigger] r(x, y) || #[trigger] r(y, x) by {
        lemma_name_le_total(x, y);
    }
}

/// Comparing two names that begin with parts of equal length: the first parts decide,
/// unless they are equal.
pub proof fn lemma_name_le_concat(a1: Seq<char>, b1: Seq<char>, a2: Seq<char>, b2: Seq<char>)
    requires
        a1.len() == a2.len(),
    ensures
        name_le(a1 + b1, a2 + b2) == (if a1 == a2 { name_le(b1, b2) } else { name_le(a1, a2) }),
    decreases a1.len(),
{
    if a1.len() == 0 {
        assert(a1 + b1 =~= b1);
        assert(a2 + b2 =~= b2);
        assert(a1 =~= a2);
    } else {
        assert((a1 + b1).drop_first() =~= a1.drop_first() + b1);
        assert((a2 + b2).drop_first() =~= a2.drop_first() + b2);
        lemma_name_le_concat(a1.drop_first(), b1, a2.drop_first(), b2);
        if a1[0] == a2[0] {
            if a1.drop_first() == a2.drop_first() {
                assert(a1 =~= seq![a1[0]] + a1.drop_first());
                assert(a2 =~= seq![a2[0]] + a2.drop_first());
            } else {
                assert(a1 != a2);
            }
        }
    }
}

/// Whether `a` sorts no later than `b`, by characters.
pub fn chars_le(a: &Vec<char>, b: &Vec<char>) -> (r: bool)
    ensures
        r == name_le(a@, b@),
{
    let mut i: usize = 0;
    proof {
        assert(a@.skip(0) =~= a@);
        assert(b@.skip(0) =~= b@);
    }
    while i < a.len() && i < b.len() && a[i] == b[i]
        invariant
            i <= a.len(),
            i <= b.len(),
            name_le(a@, b@) == name_le(a@.skip(i as int), b@.skip(i as int)),
        decreases a.len() - i,
    {
        proof {
            assert(a@.skip(i as int).drop_first() =~= a@.skip(i + 1));
            assert(b@.skip(i as int).drop_first() =~= b@.skip(i + 1));
        }
        i = i + 1;
    }
    if i == a.len() {
        true
    } else if i == b.len() {
        false
    } else {
        a[i] < b[i]
    }
}

/// The characters of `s`.
pub fn chars_of(s: &str) -> (r: Vec<char>)
    ensures
        r@ == s@,
{
    let mut out: Vec<char> = Vec::new();
    for c in it: s.chars()
        invariant
            it.seq() == s@,
            out@ == s@.take(it.index() as int),
    {
        out.push(c);
    }
    proof {
        assert(s@.take(s@.len() as int) =~= s@);
    }
    out
}


/// The names of a directory listing, as character sequences.
pub open spec fn name_views(names: Seq<String>) -> Seq<Seq<char>> {
    names.map_values(|s: String| s@)
}

/// A file name whose extension is exactly `png`: the part after the last dot is `png` and the
/// part before it is not empty (so `.png` itself has no extension), as `Path::extension` reads it.
pub open spec fn is_png_name(n: Seq<char>) -> bool {
    &&& n.len() > 4
    &&& n.subrange(n.len() - 4, n.len() as int) == seq!['.', 'p', 'n', 'g']
}

/// The names of PNG files in a listing, in listing order.
pub open spec fn png_names(names: Seq<Seq<char>>) -> Seq<Seq<char>> {
    names.filter(|n: Seq<char>| is_png_name(n))
}

/// The PNG names of a listing, greatest name first (the newest screenshot first).
pub open spec fn newest_first(names: Seq<Seq<char>>) -> Seq<Seq<char>> {
    png_names(names).sort_by(|a: Seq<char>, b: Seq<char>| name_ge(a, b))
}

/// Whether the name held in `n` has the `png` extension.
pub fn is_png_chars(n: &Vec<char>) -> (r: bool)
    ensures
        r == is_png_name(n@),
{
    let len = n.len();
    if len <= 4 {
        return false;
    }
    let r = n[len - 4] == '.' && n[len - 3] == 'p' && n[len - 2] == 'n' && n[len - 1] == 'g';
    proof {
        let tail = n@.subrange(len - 4, len as int);
        if r {
            assert(tail =~= seq!['.', 'p', 'n', 'g']);
        } else {
            if tail == seq!['.', 'p', 'n', 'g'] {
                assert(tail[0] == n@[len - 4]);
                assert(tail[1] == n@[len - 3]);
                assert(tail[2] == n@[len - 2]);
                assert(tail[3] == n@[len - 1]);
            }
        }
    }
    r
}

/// Up to `max` screenshot names out of a directory listing, most recent first: the names with
/// the `png` extension, sorted by name from greatest to least, cut to the first `max`.
pub fn recent_images(names: &Vec<String>, max: usize) -> (r: Vec<String>)
    ensures
        r.len() == if max < newest_first(name_views(names@)).len() {
            max as int
        } else {
            newest_first(name_views(names@)).len() as int
        },
        forall|i: int| 0 <= i < r.len() ==> #[trigger] r@[i]@ == newest_first(name_views(names@))[i],
{
    let ghost all = name_views(names@);
    let ghost ge = |a: Seq<char>, b: Seq<char>| name_ge(a, b);
    let ghost png = |n: Seq<char>| is_png_name(n);
    let mut keys: Vec<Vec<char>> = Vec::new();
    let mut vals: Vec<String> = Vec::new();
    proof {
        lemma_name_ge_total_ordering();
        reveal(Seq::filter);
        assert(all.take(0) =~= Seq::<Seq<char>>::empty());
        assert(all.take(0).filter(png) =~= Seq::<Seq<char>>::empty());
        assert(keys@.map_values(|k: Vec<char>| k@) =~= Seq::<Seq<char>>::empty());
    }
    for i in 0..names.len()
        invariant
            all == name_views(names@),
            ge == (|a: Seq<char>, b: Seq<char>| name_ge(a, b)),
            png == (|n: Seq<char>| is_png_name(n)),
            total_ordering(ge),
            keys.len() == vals.len(),
            forall|j: int| 0 <= j < keys.len() ==> #[trigger] keys@[j]@ == vals@[j]@,
            sorted_by(keys@.map_values(|k: Vec<char>| k@), ge),
            keys@.map_values(|k: Vec<char>| k@).to_multiset()
                == all.take(i as int).filter(png).to_multiset(),
    {
        let k = chars_of(names[i].as_str());
        proof {
            assert(all.take(i + 1) =~= all.take(i as int).push(all[i as int]));
            all.take(i as int).lemma_filter_push(all[i as int], png);
            assert(all[i as int] == names@[i as int]@);
        }
        let ghost old_view = keys@.map_values(|k: Vec<char>| k@);
        if is_png_chars(&k) {
            let mut j: usize = 0;
            while j < keys.len() && !chars_le(&keys[j], &k)
                invariant
                    j <= keys.len(),
                    old_view == keys@.map_values(|k: Vec<char>| k@),
                    forall|p: int| 0 <= p < j ==> !name_le(#[trigger] old_view[p], k@),
                decreases keys.len() - j,
            {
                j = j + 1;
            }
            let ghost kv = k@;
            keys.insert(j, k);
            vals.insert(j, names[i].clone());
            proof {
                let new_view = keys@.map_values(|k: Vec<char>| k@);
                assert(new_view =~= old_view.insert(j as int, kv));
                broadcast use vstd::seq_lib::group_to_multiset_ensures;
                assert(old_view.insert(j as int, kv).to_multiset() == old_view.to_multiset().insert(kv));
                assert forall|a: int, b: int| 0 <= a < b < new_view.len() implies #[trigger] ge(new_view[a], new_view[b]) by {
                    if b == j {
                        lemma_name_le_total(old_view[a], kv);
                    } else if a == j {
                        // old_view[b - 1] <= old_view[j] <= kv
                        if j < old_view.len() {
                            lemma_name_le_total(old_view[j as int], kv);
                            assert(ge(old_view[j as int], old_view[b - 1]) || j == b - 1);
                            if j != b - 1 {
                                lemma_name_le_transitive(old_view[b - 1], old_view[j as int], kv);
                            }
                        }
                    } else if a < j && b > j {
                        assert(ge(old_view[a], old_view[b - 1]));
                    } else if a > j {
                        assert(ge(old_view[a - 1], old_view[b - 1]));
                    } else {
                        assert(ge(old_view[a], old_view[b]));
                    }
                }
            }
        }
    }
    proof {
        assert(all.take(names.len() as int) =~= all);
        let view = keys@.map_values(|k: Vec<char>| k@);
        let target = all.filter(png).sort_by(ge);
        all.filter(png).lemma_sort_by_ensures(ge);
        vstd::seq_lib::lemma_sorted_unique(view, target, ge);
        assert(png_names(all) == all.filter(png));
        assert(newest_first(all) == target);
    }
    let ghost full_vals = vals@;
    vals.truncate(max);
    proof {
        assert forall|i: int| 0 <= i < vals.len() implies #[trigger] vals@[i]@ == newest_first(all)[i] by {
            assert(vals@[i] == full_vals[i]);
            assert(keys@[i]@ == full_vals[i]@);
            assert(keys@.map_values(|k: Vec<char>| k@)[i] == keys@[i]@);
        }
    }
    vals
}


/// The newest-first list holds exactly the PNG names of the listing, and its first entry is a
/// PNG name of the listing that no other PNG name of the listing exceeds.
pub proof fn lemma_newest_first_max(names: Seq<Seq<char>>)
    ensures
        newest_first(names).len() == png_names(names).len(),
        png_names(names).len() > 0 ==> {
            &&& exists|k: int| 0 <= k < names.len() && names[k] == newest_first(names)[0] && is_png_name(names[k])
            &&& forall|j: int| 0 <= j < names.len() && is_png_name(#[trigger] names[j]) ==> name_le(names[j], newest_first(names)[0])
        },
{
    broadcast use vstd::seq_lib::group_to_multiset_ensures;
    let png = |n: Seq<char>| is_png_name(n);
    let ge = |a: Seq<char>, b: Seq<char>| name_ge(a, b);
    let p = names.filter(png);
    let sorted = p.sort_by(ge);
    lemma_name_ge_total_ordering();
    p.lemma_sort_by_ensures(ge);
    assert(png_names(names) == p);
    assert(newest_first(names) == sorted);
    assert(sorted.len() == p.len()) by {
        assert(sorted.to_multiset().len() == p.to_multiset().len());
    }
    if p.len() > 0 {
        let first = sorted[0];
        assert(sorted.to_multiset().count(first) > 0);
        assert(p.contains(first)) by {
            assert(p.to_multiset().count(first) > 0);
        }
        let i = choose|i: int| 0 <= i < p.len() && p[i] == first;
        names.lemma_filter_pred(png, i);
        names.lemma_filter_contains_rev(png, first);
        let k = choose|k: int| 0 <= k < names.len() && names[k] == first;
        assert(names[k] == first && is_png_name(names[k]));
        assert forall|j: int| 0 <= j < names.len() && is_png_name(#[trigger] names[j]) implies name_le(names[j], first) by {
            assert(png(names[j]));
            names.lemma_filter_contains(png, j);
            assert(p.contains(names[j]));
            assert(p.to_multiset().count(names[j]) > 0);
            assert(sorted.contains(names[j]));
            let m = choose|m: int| 0 <= m < sorted.len() && sorted[m] == names[j];
            if m > 0 {
                assert(ge(sorted[0], sorted[m]));
            } else {
                lemma_name_le_reflexive(first);
            }
        }
    }
}

/// The name of the most recent screenshot in a directory listing: the greatest name with
/// the `png` extension, or `None` when the listing holds no PNG file.
pub fn copy_last_path(names: &Vec<String>) -> (r: Option<String>)
    ensures
        r is None <==> png_names(name_views(names@)).len() == 0,
        r matches Some(n) ==> n@ == newest_first(name_views(names@))[0],
        r matches Some(n) ==> is_png_name(n@),
        r matches Some(n) ==> forall|j: int|
            0 <= j < names.len() && is_png_name(#[trigger] names@[j]@) ==> name_le(names@[j]@, n@),
{
    proof {
        lemma_newest_first_max(name_views(names@));
    }
    let recent = recent_images(names, 1);
    if recent.len() == 0 {
        None
    } else {
        let n = recent[0].clone();
        proof {
            let all = name_views(names@);
            assert forall|j: int| 0 <= j < names.len() && is_png_name(#[trigger] names@[j]@) implies name_le(names@[j]@, n@) by {
                assert(all[j] == names@[j]@);
            }
        }
        Some(n)
    }
}

} // verus!
