//! Items of the language shared by the syntax tree and the IR: paths.
use vstd::prelude::*;
use vstd::string::StringExecFns;

verus! {

/// A module or type path: a sequence of name segments.
#[derive(Clone, Debug, PartialEq, Eq, Hash)]
pub struct Path(pub Vec<String>);

/// Segments joined by the path separator `::`.
pub open spec fn joined(segs: Seq<Seq<char>>) -> Seq<char>
    decreases segs.len(),
{
    if segs.len() == 0 {
        Seq::empty()
    } else if segs.len() == 1 {
        segs[0]
    } else {
        joined(segs.drop_last()) + "::"@ + segs.last()
    }
}

impl View for Path {
    type V = Seq<Seq<char>>;

    open spec fn view(&self) -> Seq<Seq<char>> {
        self.0@.map_values(|s: String| s@)
    }
}

impl Path {
    /// The empty path.
    pub fn new() -> (r: Self)
        ensures
            r@ == Seq::<Seq<char>>::empty(),
    {
        Path(Vec::new())
    }

    /// The path of one segment.
    pub fn of(s: &str) -> (r: Self)
        ensures
            r@ == seq![s@],
    {
        let mut v: Vec<String> = Vec::new();
        v.push(String::from_str(s));
        let r = Path(v);
        assert(r@ =~= seq![s@]);
        r
    }

    /// This path with one more segment at its end.
    pub fn append(&self, s: String) -> (r: Self)
        ensures
            r@ == self@.push(s@),
    {
        let mut v: Vec<String> = Vec::new();
        let mut i: usize = 0;
        while i < self.0.len()
            invariant
                i <= self.0.len(),
                v@.len() == i,
                forall|k: int| 0 <= k < i ==> v@[k]@ == self.0@[k]@,
            decreases self.0.len() - i,
        {
            v.push(self.0[i].clone());
            i = i + 1;
        }
        v.push(s);
        let r = Path(v);
        assert(r@ =~= self@.push(s@));
        r
    }

    /// Takes the last segment off.
    pub fn pop(&mut self) -> (r: String)
        requires
            old(self)@.len() > 0,
        ensures
            r@ == old(self)@.last(),
            final(self)@ == old(self)@.drop_last(),
    {
        let r = self.0.pop().unwrap();
        assert(self@ =~= old(self)@.drop_last());
        r
    }

    /// The segments joined by `::`.
    pub fn to_string(&self) -> (r: String)
        ensures
            r@ == joined(self@),
    {
        let mut s = String::new();
        let mut i: usize = 0;
        while i < self.0.len()
            invariant
                i <= self.0.len(),
                s@ == joined(self@.take(i as int)),
            decreases self.0.len() - i,
        {
            if i > 0 {
                s.append("::");
            }
            s.append(self.0[i].as_str());
            proof {
                let t = self@.take(i + 1);
                assert(t.drop_last() =~= self@.take(i as int));
                if i == 0 {
                    assert(self@.take(0) =~= Seq::<Seq<char>>::empty());
                }
            }
            i = i + 1;
        }
        assert(self@.take(self.0.len() as int) =~= self@);
        s
    }
}

} // verus!
