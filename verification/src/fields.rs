//! Text cut into fields at a separator byte, and fields joined again.

use vstd::prelude::*;

verus! {

/// Whether the byte `sep` is absent from `s`.
pub open spec fn free_of(s: Seq<u8>, sep: u8) -> bool {
    forall|i: int| 0 <= i < s.len() ==> #[trigger] s[i] != sep
}

/// Whether the byte `sep` is absent from every one of `parts`.
pub open spec fn all_free_of(parts: Seq<Seq<u8>>, sep: u8) -> bool {
    forall|k: int| 0 <= k < parts.len() ==> free_of(#[trigger] parts[k], sep)
}

/// The fields of `s`: its pieces between occurrences of `sep`, in order.
///
/// Text with n separators has n + 1 fields, some of them possibly empty.
pub open spec fn fields(s: Seq<u8>, sep: u8) -> Seq<Seq<u8>>
    decreases s.len(),
{
    if s.len() == 0 {
        seq![Seq::<u8>::empty()]
    } else {
        let before = fields(s.drop_last(), sep);
        if s.last() == sep {
            before.push(Seq::<u8>::empty())
        } else {
            before.update(before.len() - 1, before.last().push(s.last()))
        }
    }
}

/// The parts written one after another with `sep` between neighbours.
pub open spec fn joined(parts: Seq<Seq<u8>>, sep: u8) -> Seq<u8>
    decreases parts.len(),
{
    if parts.len() == 0 {
        Seq::<u8>::empty()
    } else if parts.len() == 1 {
        parts[0]
    } else {
        joined(parts.drop_last(), sep) + seq![sep] + parts.last()
    }
}

/// Text has at least one field, no field holds the separator, and the fields
/// joined give the text back.
pub proof fn lemma_join_of_fields(s: Seq<u8>, sep: u8)
    ensures
        fields(s, sep).len() >= 1,
        all_free_of(fields(s, sep), sep),
        joined(fields(s, sep), sep) == s,
    decreases s.len(),
{
    let f = fields(s, sep);
    if s.len() == 0 {
        assert(joined(f, sep) =~= s);
    } else {
        let init = s.drop_last();
        let before = fields(init, sep);
        lemma_join_of_fields(init, sep);
        if s.last() == sep {
            assert(f.drop_last() =~= before);
            assert(joined(f, sep) =~= s);
            assert forall|k: int| 0 <= k < f.len() implies free_of(#[trigger] f[k], sep) by {
                if k < before.len() {
                    assert(f[k] == before[k]);
                }
            }
        } else {
            let grown = before.last().push(s.last());
            assert(free_of(before[before.len() - 1], sep));
            assert forall|k: int| 0 <= k < f.len() implies free_of(#[trigger] f[k], sep) by {
                if k < before.len() - 1 {
                    assert(f[k] == before[k]);
                }
            }
            if before.len() == 1 {
                assert(joined(f, sep) =~= s);
            } else {
                assert(f.drop_last() =~= before.drop_last());
                assert(joined(f, sep) =~= joined(before, sep).push(s.last()));
                assert(joined(f, sep) =~= s);
            }
        }
    }
}

/// Behind text and a separator, a part without separator is one more field.
pub proof fn lemma_fields_extended(x: Seq<u8>, part: Seq<u8>, sep: u8)
    requires
        free_of(part, sep),
    ensures
        fields(x + seq![sep] + part, sep) == fields(x, sep).push(part),
    decreases part.len(),
{
    let s = x + seq![sep] + part;
    if part.len() == 0 {
        assert(s.drop_last() =~= x);
        assert(part =~= Seq::<u8>::empty());
    } else {
        let init = part.drop_last();
        assert(part[part.len() - 1] != sep);
        assert forall|i: int| 0 <= i < init.len() implies #[trigger] init[i] != sep by {
            assert(init[i] == part[i]);
        }
        lemma_fields_extended(x, init, sep);
        assert(s.drop_last() =~= x + seq![sep] + init);
        assert(init.push(part.last()) =~= part);
        assert(fields(s, sep) =~= fields(x, sep).push(part));
    }
}

/// Text without separator is its own single field.
pub proof fn lemma_fields_single(part: Seq<u8>, sep: u8)
    requires
        free_of(part, sep),
    ensures
        fields(part, sep) == seq![part],
    decreases part.len(),
{
    if part.len() == 0 {
        assert(part =~= Seq::<u8>::empty());
    } else {
        let init = part.drop_last();
        assert(part[part.len() - 1] != sep);
        assert forall|i: int| 0 <= i < init.len() implies #[trigger] init[i] != sep by {
            assert(init[i] == part[i]);
        }
        lemma_fields_single(init, sep);
        assert(init.push(part.last()) =~= part);
        assert(fields(part, sep) =~= seq![part]);
    }
}

/// Parts without separator, joined, are cut into those same parts.
pub proof fn lemma_fields_of_join(parts: Seq<Seq<u8>>, sep: u8)
    requires
        parts.len() >= 1,
        all_free_of(parts, sep),
    ensures
        fields(joined(parts, sep), sep) == parts,
    decreases parts.len(),
{
    if parts.len() == 1 {
        assert(free_of(parts[0], sep));
        lemma_fields_single(parts[0], sep);
        assert(seq![parts[0]] =~= parts);
    } else {
        let init = parts.drop_last();
        assert forall|k: int| 0 <= k < init.len() implies free_of(#[trigger] init[k], sep) by {
            assert(init[k] == parts[k]);
        }
        lemma_fields_of_join(init, sep);
        assert(free_of(parts[parts.len() - 1], sep));
        lemma_fields_extended(joined(init, sep), parts.last(), sep);
        assert(init.push(parts.last()) =~= parts);
    }
}

/// The views of the byte vectors in `v`, in order.
pub open spec fn views(v: Seq<Vec<u8>>) -> Seq<Seq<u8>> {
    Seq::new(v.len(), |k: int| v[k]@)
}

/// Cuts `s` into its fields at each occurrence of `sep`.
pub fn split_fields(s: &[u8], sep: u8) -> (r: Vec<Vec<u8>>)
    ensures
        views(r@) == fields(s@, sep),
{
    let len = s.len();
    let mut done: Vec<Vec<u8>> = Vec::new();
    let mut current: Vec<u8> = Vec::new();
    let mut i: usize = 0;
    proof {
        assert(s@.take(0).len() == 0);
        assert(views(done@).push(current@) =~= fields(s@.take(0), sep));
    }
    while i < len
        invariant
            len == s@.len(),
            0 <= i <= len,
            views(done@).push(current@) == fields(s@.take(i as int), sep),
        decreases len - i,
    {
        let b = s[i];
        let ghost before = fields(s@.take(i as int), sep);
        let ghost done_before = done@;
        let ghost current_before = current@;
        proof {
            assert(s@.take(i + 1).drop_last() =~= s@.take(i as int));
            assert(s@.take(i + 1).last() == b);
        }
        if b == sep {
            done.push(current);
            current = Vec::new();
            proof {
                assert(views(done@) =~= views(done_before).push(current_before));
                assert(views(done@).push(current@) =~= before.push(Seq::<u8>::empty()));
            }
        } else {
            current.push(b);
            proof {
                assert(before.last() == current_before);
                assert(views(done@).push(current@) =~= before.update(
                    before.len() - 1,
                    before.last().push(b),
                ));
            }
        }
        i = i + 1;
    }
    let ghost done_before = done@;
    done.push(current);
    proof {
        assert(s@.take(len as int) =~= s@);
        assert(views(done@) =~= views(done_before).push(current@));
    }
    done
}

} // verus!
