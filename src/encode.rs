use vstd::prelude::*;

use crate::model::OverlayM;
use crate::option::OptionImpex;
use crate::overlay::{lemma_overlay_views, overlay_views, Overlay};
use crate::strategy::LeafOverlay;
use crate::value::{copy_strings, string_views, Prim};
use crate::wire::{
    doc_views, encode, encode_all, field_docs, field_keys, key_at, lemma_doc_views, prim_doc, Doc,
    DocM,
};

verus! {

proof fn lemma_views_step<L: LeafOverlay>(s: Seq<Overlay<L>>, i: int)
    requires
        0 <= i < s.len(),
    ensures
        overlay_views(s.take(i + 1)) == overlay_views(s.take(i)).push(s[i]@),
{
    assert(s.take(i + 1).drop_last() =~= s.take(i));
}

fn prim_to_doc(p: &Prim) -> (r: Doc)
    ensures
        r@ == prim_doc(p@),
{
    match p {
        Prim::U32(x) => Doc::Int(*x as i64),
        Prim::I32(x) => Doc::Int(*x as i64),
        Prim::I64(x) => Doc::Int(*x),
        Prim::Str(s) => Doc::Str(s.clone()),
    }
}

impl<L: LeafOverlay> Overlay<L> {
    /// The wire document of the overlay; see `encode`.
    pub fn encode(&self) -> (r: Doc)
        ensures
            r@ == encode(self@),
        decreases self,
    {
        match self {
            Overlay::Leaf(l) => {
                if l.leaf_is_explicit() {
                    prim_to_doc(&l.leaf_prim())
                } else {
                    Doc::Null
                }
            },
            Overlay::Opt(OptionImpex::Present(x)) => (**x).encode(),
            Overlay::Opt(OptionImpex::Absent(_)) => Doc::Null,
            Overlay::List(s) => Doc::Arr(encode_vec(s)),
            Overlay::Record(ns, s) => {
                let (ks, ds) = encode_fields(ns, s);
                Doc::Obj(ks, ds)
            },
            Overlay::Unit(n, _) => Doc::Str(n.clone()),
            Overlay::Variant(n, p) => {
                let payload = match &**p {
                    Overlay::List(s) => {
                        proof {
                            lemma_overlay_views(s@);
                        }
                        if s.len() == 1 {
                            proof {
                                vstd::std_specs::vec::axiom_vec_index_decreases(*s, 0);
                            }
                            s[0].encode()
                        } else {
                            Doc::Arr(encode_vec(s))
                        }
                    },
                    Overlay::Record(ns, s) => {
                        let d = Doc::Obj(copy_strings(ns), encode_vec(s));
                        assert(d@ == DocM::Obj(string_views(ns@), encode_all(overlay_views(s@))));
                        d
                    },
                    other => other.encode(),
                };
                assert(payload@ == match (**p)@ {
                    OverlayM::List(s) => if s.len() == 1 {
                        encode(s[0])
                    } else {
                        DocM::Arr(encode_all(s))
                    },
                    OverlayM::Record(ns, s) => DocM::Obj(ns, encode_all(s)),
                    _ => encode((**p)@),
                });
                let mut ks: Vec<String> = Vec::new();
                ks.push(n.clone());
                let mut ds: Vec<Doc> = Vec::new();
                ds.push(payload);
                proof {
                    assert(string_views(ks@) =~= seq![n@]);
                    lemma_doc_views(ds@);
                    assert(doc_views(ds@) =~= seq![payload@]);
                }
                Doc::Obj(ks, ds)
            },
        }
    }
}

fn encode_vec<L: LeafOverlay>(s: &Vec<Overlay<L>>) -> (r: Vec<Doc>)
    ensures
        doc_views(r@) == encode_all(overlay_views(s@)),
    decreases s,
{
    let mut r: Vec<Doc> = Vec::new();
    let mut i: usize = 0;
    while i < s.len()
        invariant
            i <= s.len(),
            doc_views(r@) == encode_all(overlay_views(s@.take(i as int))),
        decreases s.len() - i,
    {
        proof {
            vstd::std_specs::vec::axiom_vec_index_decreases(*s, i as int);
        }
        let d = s[i].encode();
        proof {
            lemma_views_step(s@, i as int);
            let ov = overlay_views(s@.take(i as int + 1));
            assert(ov.drop_last() =~= overlay_views(s@.take(i as int)));
            assert((r@.push(d)).drop_last() =~= r@);
        }
        r.push(d);
        i += 1;
    }
    proof {
        assert(s@.take(s.len() as int) =~= s@);
    }
    r
}

fn encode_fields<L: LeafOverlay>(ns: &Vec<String>, s: &Vec<Overlay<L>>) -> (r: (Vec<String>, Vec<Doc>))
    ensures
        string_views(r.0@) == field_keys(string_views(ns@), overlay_views(s@)),
        doc_views(r.1@) == field_docs(overlay_views(s@)),
    decreases s,
{
    let mut ks: Vec<String> = Vec::new();
    let mut ds: Vec<Doc> = Vec::new();
    let mut i: usize = 0;
    while i < s.len()
        invariant
            i <= s.len(),
            string_views(ks@) == field_keys(string_views(ns@), overlay_views(s@.take(i as int))),
            doc_views(ds@) == field_docs(overlay_views(s@.take(i as int))),
        decreases s.len() - i,
    {
        proof {
            vstd::std_specs::vec::axiom_vec_index_decreases(*s, i as int);
        }
        proof {
            lemma_views_step(s@, i as int);
            let ov = overlay_views(s@.take(i as int + 1));
            assert(ov.drop_last() =~= overlay_views(s@.take(i as int)));
        }
        if s[i].explicit() {
            let k = if i < ns.len() {
                ns[i].clone()
            } else {
                String::new()
            };
            proof {
                lemma_overlay_views(s@.take(i as int + 1));
                if i < ns.len() {
                    assert(string_views(ns@)[i as int] == ns@[i as int]@);
                }
                assert(k@ == key_at(string_views(ns@), i as int));
            }
            let d = s[i].encode();
            proof {
                assert((ks@.push(k)).drop_last() =~= ks@);
                assert(string_views(ks@.push(k)) =~= string_views(ks@).push(k@));
                assert((ds@.push(d)).drop_last() =~= ds@);
            }
            ks.push(k);
            ds.push(d);
        }
        i += 1;
    }
    proof {
        assert(s@.take(s.len() as int) =~= s@);
    }
    (ks, ds)
}

} // verus!
