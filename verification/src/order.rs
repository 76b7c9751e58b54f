//! Sorting of directory and file listings, largest first, and of dated
//! figures by date text.

use vstd::prelude::*;
use crate::model::{
    DirView, DirViewModel, FileView, FileViewModel, dir_models, file_models, dirs_by_size_desc,
    files_by_size_desc,
};
use crate::text::{text_le, text_less_eq};

verus! {

broadcast use vstd::seq_lib::group_seq_properties;

/// Inserting an element into a sequence adds it to the sequence's multiset.
pub proof fn lemma_insert_multiset<T>(s: Seq<T>, pos: int, x: T)
    requires
        0 <= pos <= s.len(),
    ensures
        s.insert(pos, x).to_multiset() == s.to_multiset().insert(x),
{
    let t = s.insert(pos, x);
    s.insert_ensures(pos, x);
    assert(t.remove(pos) =~= s);
    t.to_multiset_ensures();
    assert(t[pos] == x);
    assert(t.contains(x));
    assert(t.to_multiset() =~= s.to_multiset().insert(x));
}

/// Removing the last element removes it from the multiset.
pub proof fn lemma_drop_last_multiset<T>(s: Seq<T>)
    requires
        s.len() > 0,
    ensures
        s.to_multiset() == s.drop_last().to_multiset().insert(s.last()),
{
    assert(s.drop_last().push(s.last()) =~= s);
    s.drop_last().to_multiset_ensures();
}

/// The elements of `s` whose key is `k`, in their order in `s`.
pub open spec fn with_key<T, K>(s: Seq<T>, key: spec_fn(T) -> K, k: K) -> Seq<T>
    decreases s.len(),
{
    if s.len() == 0 {
        Seq::empty()
    } else {
        let p = with_key(s.drop_last(), key, k);
        if key(s.last()) == k {
            p.push(s.last())
        } else {
            p
        }
    }
}

/// `b` holds the elements of each key in the order that `a` has them: what
/// a stable sort by that key keeps.
pub open spec fn keeps_order_by_key<T, K>(a: Seq<T>, b: Seq<T>, key: spec_fn(T) -> K) -> bool {
    forall|k: K| #[trigger] with_key(b, key, k) == with_key(a, key, k)
}

/// The size of a directory view, as a key.
pub open spec fn dir_size_key() -> spec_fn(DirViewModel) -> int {
    |m: DirViewModel| m.meta.size as int
}

/// The size of a file view, as a key.
pub open spec fn file_size_key() -> spec_fn(FileViewModel) -> int {
    |m: FileViewModel| m.meta.size as int
}

/// Picking the elements of one key distributes over concatenation.
pub proof fn lemma_with_key_add<T, K>(a: Seq<T>, b: Seq<T>, key: spec_fn(T) -> K, k: K)
    ensures
        with_key(a + b, key, k) == with_key(a, key, k) + with_key(b, key, k),
    decreases b.len(),
{
    if b.len() == 0 {
        assert(a + b =~= a);
        assert(with_key(a, key, k) + with_key(b, key, k) =~= with_key(a, key, k));
    } else {
        assert((a + b).drop_last() =~= a + b.drop_last());
        assert((a + b).last() == b.last());
        lemma_with_key_add(a, b.drop_last(), key, k);
        if key(b.last()) == k {
            assert(with_key(a, key, k) + with_key(b.drop_last(), key, k).push(b.last())
                =~= (with_key(a, key, k) + with_key(b.drop_last(), key, k)).push(b.last()));
        }
    }
}

/// No element of another key is picked.
pub proof fn lemma_with_key_none<T, K>(s: Seq<T>, key: spec_fn(T) -> K, k: K)
    requires
        forall|j: int| 0 <= j < s.len() ==> key(#[trigger] s[j]) != k,
    ensures
        with_key(s, key, k) == Seq::<T>::empty(),
    decreases s.len(),
{
    if s.len() > 0 {
        assert(key(s[s.len() - 1]) != k);
        lemma_with_key_none(s.drop_last(), key, k);
    }
}

/// Inserting an element before every element of its key puts it first
/// among the elements of its key and changes no other key.
pub proof fn lemma_with_key_insert<T, K>(s: Seq<T>, pos: int, x: T, key: spec_fn(T) -> K, k: K)
    requires
        0 <= pos <= s.len(),
        forall|j: int| 0 <= j < pos ==> key(#[trigger] s[j]) != key(x),
    ensures
        with_key(s.insert(pos, x), key, k) == (if key(x) == k {
            seq![x] + with_key(s, key, k)
        } else {
            with_key(s, key, k)
        }),
{
    let front = s.take(pos);
    let back = s.skip(pos);
    assert(s.insert(pos, x) =~= (front + seq![x]) + back);
    assert(s =~= front + back);
    lemma_with_key_add(front + seq![x], back, key, k);
    lemma_with_key_add(front, seq![x], key, k);
    lemma_with_key_add(front, back, key, k);
    assert(seq![x].drop_last() =~= Seq::<T>::empty());
    assert(seq![x].last() == x);
    if key(x) == k {
        assert forall|j: int| 0 <= j < front.len() implies key(#[trigger] front[j]) != k by {
            assert(front[j] == s[j]);
        }
        lemma_with_key_none(front, key, k);
        assert(with_key(seq![x], key, k) =~= seq![x]);
        assert(with_key(front, key, k) + with_key(seq![x], key, k) =~= seq![x]);
        assert(with_key(s, key, k) =~= with_key(back, key, k));
        assert(seq![x] + with_key(back, key, k) =~= with_key(s.insert(pos, x), key, k));
    } else {
        assert(with_key(seq![x], key, k) =~= Seq::<T>::empty());
        assert(with_key(front, key, k) + with_key(seq![x], key, k) =~= with_key(front, key, k));
    }
}

/// Sorts directory views largest first. Views of equal size keep their
/// order.
pub fn sort_dir_views_by_size(v: Vec<DirView>) -> (r: Vec<DirView>)
    ensures
        dir_models(r@).to_multiset() == dir_models(v@).to_multiset(),
        dirs_by_size_desc(dir_models(r@)),
        keeps_order_by_key(dir_models(v@), dir_models(r@), dir_size_key()),
{
    let ghost orig = dir_models(v@);
    let mut rest = v;
    let mut out: Vec<DirView> = Vec::new();
    assert(dir_models(out@) =~= Seq::<crate::model::DirViewModel>::empty());
    assert(dir_models(rest@) =~= orig);
    while rest.len() > 0
        invariant
            dir_models(out@).to_multiset().add(dir_models(rest@).to_multiset()) == orig.to_multiset(),
            dirs_by_size_desc(dir_models(out@)),
            forall|k: int| #[trigger] with_key(orig, dir_size_key(), k)
                == with_key(dir_models(rest@), dir_size_key(), k) + with_key(dir_models(out@), dir_size_key(), k),
        decreases rest@.len(),
    {
        let ghost before_rest = rest@;
        let ghost before_out = out@;
        let x = rest.pop().unwrap();
        proof {
            assert(dir_models(before_rest).drop_last() =~= dir_models(rest@));
            assert(dir_models(before_rest).last() == x@);
            lemma_drop_last_multiset(dir_models(before_rest));
        }
        let mut pos: usize = 0;
        while pos < out.len() && out[pos].meta.size > x.meta.size
            invariant
                pos <= out@.len(),
                out@ == before_out,
                forall|j: int| 0 <= j < pos ==> #[trigger] out@[j].meta.size > x.meta.size,
            decreases out@.len() - pos,
        {
            pos = pos + 1;
        }
        out.insert(pos, x);
        proof {
            assert(dir_models(out@) =~= dir_models(before_out).insert(pos as int, x@));
            lemma_insert_multiset(dir_models(before_out), pos as int, x@);
            let m = dir_models(before_out);
            m.insert_ensures(pos as int, x@);
            assert forall|i: int, j: int| 0 <= i < j < dir_models(out@).len() implies
                dir_models(out@)[i].meta.size >= dir_models(out@)[j].meta.size by {
                if j < pos {
                    assert(m[i].meta.size >= m[j].meta.size);
                } else if j == pos {
                    assert(before_out[i].meta.size > x.meta.size);
                } else if i < pos {
                    assert(m[i].meta.size >= m[j - 1].meta.size);
                } else if i == pos {
                    assert(before_out[pos as int].meta.size <= x.meta.size);
                    if pos < j - 1 {
                        assert(m[pos as int].meta.size >= m[j - 1].meta.size);
                    }
                } else {
                    assert(m[i - 1].meta.size >= m[j - 1].meta.size);
                }
            }
            assert(dir_models(out@).to_multiset().add(dir_models(rest@).to_multiset()) =~= orig.to_multiset());
            assert forall|k: int| #[trigger] with_key(orig, dir_size_key(), k)
                == with_key(dir_models(rest@), dir_size_key(), k) + with_key(dir_models(out@), dir_size_key(), k) by {
                assert forall|j: int| 0 <= j < pos implies dir_size_key()(#[trigger] m[j]) != dir_size_key()(x@) by {
                    assert(before_out[j].meta.size > x.meta.size);
                }
                lemma_with_key_insert(m, pos as int, x@, dir_size_key(), k);
                assert(dir_models(before_rest).drop_last() == dir_models(rest@));
                let old_r = with_key(dir_models(rest@), dir_size_key(), k);
                let old_o = with_key(m, dir_size_key(), k);
                if dir_size_key()(x@) == k {
                    assert(old_r.push(x@) + old_o =~= old_r + (seq![x@] + old_o));
                }
            }
        }
    }
    proof {
        assert(dir_models(rest@) =~= Seq::<crate::model::DirViewModel>::empty());
        assert(dir_models(out@).to_multiset() =~= orig.to_multiset());
        assert forall|k: int| #[trigger] with_key(dir_models(out@), dir_size_key(), k) == with_key(orig, dir_size_key(), k) by {
            assert(with_key(dir_models(rest@), dir_size_key(), k) + with_key(dir_models(out@), dir_size_key(), k)
                =~= with_key(dir_models(out@), dir_size_key(), k));
        }
    }
    out
}

/// Sorts file views largest first. Views of equal size keep their
/// order.
pub fn sort_file_views_by_size(v: Vec<FileView>) -> (r: Vec<FileView>)
    ensures
        file_models(r@).to_multiset() == file_models(v@).to_multiset(),
        files_by_size_desc(file_models(r@)),
        keeps_order_by_key(file_models(v@), file_models(r@), file_size_key()),
{
    let ghost orig = file_models(v@);
    let mut rest = v;
    let mut out: Vec<FileView> = Vec::new();
    assert(file_models(out@) =~= Seq::<crate::model::FileViewModel>::empty());
    assert(file_models(rest@) =~= orig);
    while rest.len() > 0
        invariant
            file_models(out@).to_multiset().add(file_models(rest@).to_multiset()) == orig.to_multiset(),
            files_by_size_desc(file_models(out@)),
            forall|k: int| #[trigger] with_key(orig, file_size_key(), k)
                == with_key(file_models(rest@), file_size_key(), k) + with_key(file_models(out@), file_size_key(), k),
        decreases rest@.len(),
    {
        let ghost before_rest = rest@;
        let ghost before_out = out@;
        let x = rest.pop().unwrap();
        proof {
            assert(file_models(before_rest).drop_last() =~= file_models(rest@));
            assert(file_models(before_rest).last() == x@);
            lemma_drop_last_multiset(file_models(before_rest));
        }
        let mut pos: usize = 0;
        while pos < out.len() && out[pos].meta.size > x.meta.size
            invariant
                pos <= out@.len(),
                out@ == before_out,
                forall|j: int| 0 <= j < pos ==> #[trigger] out@[j].meta.size > x.meta.size,
            decreases out@.len() - pos,
        {
            pos = pos + 1;
        }
        out.insert(pos, x);
        proof {
            assert(file_models(out@) =~= file_models(before_out).insert(pos as int, x@));
            lemma_insert_multiset(file_models(before_out), pos as int, x@);
            let m = file_models(before_out);
            m.insert_ensures(pos as int, x@);
            assert forall|i: int, j: int| 0 <= i < j < file_models(out@).len() implies
                file_models(out@)[i].meta.size >= file_models(out@)[j].meta.size by {
                if j < pos {
                    assert(m[i].meta.size >= m[j].meta.size);
                } else if j == pos {
                    assert(before_out[i].meta.size > x.meta.size);
                } else if i < pos {
                    assert(m[i].meta.size >= m[j - 1].meta.size);
                } else if i == pos {
                    assert(before_out[pos as int].meta.size <= x.meta.size);
                    if pos < j - 1 {
                        assert(m[pos as int].meta.size >= m[j - 1].meta.size);
                    }
                } else {
                    assert(m[i - 1].meta.size >= m[j - 1].meta.size);
                }
            }
            assert(file_models(out@).to_multiset().add(file_models(rest@).to_multiset()) =~= orig.to_multiset());
            assert forall|k: int| #[trigger] with_key(orig, file_size_key(), k)
                == with_key(file_models(rest@), file_size_key(), k) + with_key(file_models(out@), file_size_key(), k) by {
                assert forall|j: int| 0 <= j < pos implies file_size_key()(#[trigger] m[j]) != file_size_key()(x@) by {
                    assert(before_out[j].meta.size > x.meta.size);
                }
                lemma_with_key_insert(m, pos as int, x@, file_size_key(), k);
                assert(file_models(before_rest).drop_last() == file_models(rest@));
                let old_r = with_key(file_models(rest@), file_size_key(), k);
                let old_o = with_key(m, file_size_key(), k);
                if file_size_key()(x@) == k {
                    assert(old_r.push(x@) + old_o =~= old_r + (seq![x@] + old_o));
                }
            }
        }
    }
    proof {
        assert(file_models(rest@) =~= Seq::<crate::model::FileViewModel>::empty());
        assert(file_models(out@).to_multiset() =~= orig.to_multiset());
        assert forall|k: int| #[trigger] with_key(file_models(out@), file_size_key(), k) == with_key(orig, file_size_key(), k) by {
            assert(with_key(file_models(rest@), file_size_key(), k) + with_key(file_models(out@), file_size_key(), k)
                =~= with_key(file_models(out@), file_size_key(), k));
        }
    }
    out
}

/// Text order is total: of two texts, one is at most the other.
pub proof fn lemma_text_le_total(a: Seq<char>, b: Seq<char>)
    ensures
        text_le(a, b) || text_le(b, a),
    decreases a.len(),
{
    if a.len() > 0 && b.len() > 0 && a[0] == b[0] {
        lemma_text_le_total(a.drop_first(), b.drop_first());
    }
}

/// Text order is transitive.
pub proof fn lemma_text_le_transitive(a: Seq<char>, b: Seq<char>, c: Seq<char>)
    requires
        text_le(a, b),
        text_le(b, c),
    ensures
        text_le(a, c),
    decreases a.len(),
{
    if a.len() > 0 && b.len() > 0 && c.len() > 0 && a[0] == b[0] && b[0] == c[0] {
        lemma_text_le_transitive(a.drop_first(), b.drop_first(), c.drop_first());
    }
}

/// The model of a dated figure: its date text and its value.
pub open spec fn dated_models(s: Seq<(String, i64)>) -> Seq<(Seq<char>, i64)> {
    s.map_values(|p: (String, i64)| (p.0@, p.1))
}

/// Earliest date text first.
pub open spec fn by_date_text(s: Seq<(Seq<char>, i64)>) -> bool {
    forall|i: int, j: int| 0 <= i < j < s.len() ==> text_le(s[i].0, s[j].0)
}

/// The date text of a dated figure, as a key.
pub open spec fn date_key() -> spec_fn((Seq<char>, i64)) -> Seq<char> {
    |p: (Seq<char>, i64)| p.0
}

/// Every text is at most itself.
pub proof fn lemma_text_le_reflexive(a: Seq<char>)
    ensures
        text_le(a, a),
    decreases a.len(),
{
    if a.len() > 0 {
        lemma_text_le_reflexive(a.drop_first());
    }
}

/// Sorts dated figures by their date text, in text order. Figures with
/// equal date texts keep their order.
pub fn sort_by_date_text(v: Vec<(String, i64)>) -> (r: Vec<(String, i64)>)
    ensures
        dated_models(r@).to_multiset() == dated_models(v@).to_multiset(),
        by_date_text(dated_models(r@)),
        keeps_order_by_key(dated_models(v@), dated_models(r@), date_key()),
{
    let ghost orig = dated_models(v@);
    let mut rest = v;
    let mut out: Vec<(String, i64)> = Vec::new();
    assert(dated_models(out@) =~= Seq::<(Seq<char>, i64)>::empty());
    assert(dated_models(rest@) =~= orig);
    while rest.len() > 0
        invariant
            dated_models(out@).to_multiset().add(dated_models(rest@).to_multiset()) == orig.to_multiset(),
            by_date_text(dated_models(out@)),
            forall|k: Seq<char>| #[trigger] with_key(orig, date_key(), k)
                == with_key(dated_models(rest@), date_key(), k) + with_key(dated_models(out@), date_key(), k),
        decreases rest@.len(),
    {
        let ghost before_rest = rest@;
        let ghost before_out = out@;
        let x = rest.pop().unwrap();
        proof {
            assert(dated_models(before_rest).drop_last() =~= dated_models(rest@));
            assert(dated_models(before_rest).last() == (x.0@, x.1));
            lemma_drop_last_multiset(dated_models(before_rest));
        }
        let mut pos: usize = 0;
        while pos < out.len() && !text_less_eq(x.0.as_str(), out[pos].0.as_str())
            invariant
                pos <= out@.len(),
                out@ == before_out,
                forall|j: int| 0 <= j < pos ==> !text_le(x.0@, #[trigger] out@[j].0@),
            decreases out@.len() - pos,
        {
            pos = pos + 1;
        }
        let ghost xm = (x.0@, x.1);
        out.insert(pos, x);
        proof {
            assert(dated_models(out@) =~= dated_models(before_out).insert(pos as int, xm));
            lemma_insert_multiset(dated_models(before_out), pos as int, xm);
            let m = dated_models(before_out);
            m.insert_ensures(pos as int, xm);
            assert forall|i: int, j: int| 0 <= i < j < dated_models(out@).len() implies
                text_le(dated_models(out@)[i].0, dated_models(out@)[j].0) by {
                if j < pos {
                    assert(text_le(m[i].0, m[j].0));
                } else if j == pos {
                    assert(!text_le(xm.0, before_out[i].0@));
                    lemma_text_le_total(xm.0, m[i].0);
                } else if i < pos {
                    assert(text_le(m[i].0, m[j - 1].0));
                } else if i == pos {
                    assert(text_le(xm.0, m[pos as int].0));
                    if pos < j - 1 {
                        assert(text_le(m[pos as int].0, m[j - 1].0));
                        lemma_text_le_transitive(xm.0, m[pos as int].0, m[j - 1].0);
                    }
                } else {
                    assert(text_le(m[i - 1].0, m[j - 1].0));
                }
            }
            assert(dated_models(out@).to_multiset().add(dated_models(rest@).to_multiset()) =~= orig.to_multiset());
            assert forall|k: Seq<char>| #[trigger] with_key(orig, date_key(), k)
                == with_key(dated_models(rest@), date_key(), k) + with_key(dated_models(out@), date_key(), k) by {
                assert forall|j: int| 0 <= j < pos implies date_key()(#[trigger] m[j]) != date_key()(xm) by {
                    assert(!text_le(xm.0, before_out[j].0@));
                    lemma_text_le_reflexive(xm.0);
                }
                lemma_with_key_insert(m, pos as int, xm, date_key(), k);
                assert(dated_models(before_rest).drop_last() == dated_models(rest@));
                let old_r = with_key(dated_models(rest@), date_key(), k);
                let old_o = with_key(m, date_key(), k);
                if date_key()(xm) == k {
                    assert(old_r.push(xm) + old_o =~= old_r + (seq![xm] + old_o));
                }
            }
        }
    }
    proof {
        assert(dated_models(rest@) =~= Seq::<(Seq<char>, i64)>::empty());
        assert(dated_models(out@).to_multiset() =~= orig.to_multiset());
        assert forall|k: Seq<char>| #[trigger] with_key(dated_models(out@), date_key(), k) == with_key(orig, date_key(), k) by {
            assert(with_key(dated_models(rest@), date_key(), k) + with_key(dated_models(out@), date_key(), k)
                =~= with_key(dated_models(out@), date_key(), k));
        }
    }
    out
}

} // verus!
