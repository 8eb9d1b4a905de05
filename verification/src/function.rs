use vstd::prelude::*;
use crate::number::bytes_eq;

verus! {

/// An entry of a constant pool: a text or a byte string.
#[derive(Debug, Clone, PartialEq, Eq)]
pub enum ConstantString {
    ZString(String),
    ZBytes(Vec<u8>),
}

/// What a constant pool entry holds, as the specification sees it.
pub enum ConstantView {
    Text(Seq<char>),
    Bytes(Seq<u8>),
}

impl ConstantString {
    pub open spec fn view(&self) -> ConstantView {
        match self {
            ConstantString::ZString(s) => ConstantView::Text(s@),
            ConstantString::ZBytes(b) => ConstantView::Bytes(b@),
        }
    }
}

impl From<String> for ConstantString {
    fn from(value: String) -> (r: ConstantString) {
        ConstantString::ZString(value)
    }
}

impl vstd::std_specs::convert::FromSpecImpl<String> for ConstantString {
    open spec fn obeys_from_spec() -> bool {
        true
    }

    open spec fn from_spec(value: String) -> ConstantString {
        ConstantString::ZString(value)
    }
}

impl From<Vec<u8>> for ConstantString {
    fn from(value: Vec<u8>) -> (r: ConstantString) {
        ConstantString::ZBytes(value)
    }
}

impl vstd::std_specs::convert::FromSpecImpl<Vec<u8>> for ConstantString {
    open spec fn obeys_from_spec() -> bool {
        true
    }

    open spec fn from_spec(value: Vec<u8>) -> ConstantString {
        ConstantString::ZBytes(value)
    }
}

/// The pool of the text and byte constants of a compiled function; a
/// constant is referred to by its index.
#[derive(Clone, Debug)]
pub struct ConstantLib(pub Vec<ConstantString>);

/// The entries of a pool, as the specification sees them.
pub open spec fn entries(lib: Seq<ConstantString>) -> Seq<ConstantView> {
    lib.map_values(|e: ConstantString| e.view())
}

/// The index of the first text entry equal to `c`, if any.
pub open spec fn first_text(es: Seq<ConstantView>, c: Seq<char>) -> Option<int>
    decreases es.len(),
{
    if es.len() == 0 {
        None
    } else if es.last() == ConstantView::Text(c) && first_text(es.drop_last(), c) is None {
        Some(es.len() - 1)
    } else {
        first_text(es.drop_last(), c)
    }
}

/// The index of the first byte entry equal to `c`, if any.
pub open spec fn first_bytes(es: Seq<ConstantView>, c: Seq<u8>) -> Option<int>
    decreases es.len(),
{
    if es.len() == 0 {
        None
    } else if es.last() == ConstantView::Bytes(c) && first_bytes(es.drop_last(), c) is None {
        Some(es.len() - 1)
    } else {
        first_bytes(es.drop_last(), c)
    }
}

/// `first_text` is the least index of a matching text entry.
pub proof fn lemma_first_text(es: Seq<ConstantView>, c: Seq<char>)
    ensures
        first_text(es, c) matches Some(k) ==> 0 <= k < es.len() && es[k] == ConstantView::Text(c)
            && forall|j: int| 0 <= j < k ==> es[j] != ConstantView::Text(c),
        first_text(es, c) is None ==> forall|j: int|
            0 <= j < es.len() ==> es[j] != ConstantView::Text(c),
    decreases es.len(),
{
    if es.len() > 0 {
        lemma_first_text(es.drop_last(), c);
        assert forall|j: int| 0 <= j < es.len() - 1 implies es.drop_last()[j] == es[j] by {}
    }
}

/// `first_bytes` is the least index of a matching byte entry.
pub proof fn lemma_first_bytes(es: Seq<ConstantView>, c: Seq<u8>)
    ensures
        first_bytes(es, c) matches Some(k) ==> 0 <= k < es.len() && es[k] == ConstantView::Bytes(
            c,
        ) && forall|j: int| 0 <= j < k ==> es[j] != ConstantView::Bytes(c),
        first_bytes(es, c) is None ==> forall|j: int|
            0 <= j < es.len() ==> es[j] != ConstantView::Bytes(c),
    decreases es.len(),
{
    if es.len() > 0 {
        lemma_first_bytes(es.drop_last(), c);
        assert forall|j: int| 0 <= j < es.len() - 1 implies es.drop_last()[j] == es[j] by {}
    }
}

proof fn lemma_first_text_prefix(es: Seq<ConstantView>, c: Seq<char>, i: int)
    requires
        0 <= i < es.len(),
        first_text(es.take(i), c) is None,
        es[i] == ConstantView::Text(c),
    ensures
        first_text(es, c) == Some(i),
{
    lemma_first_text(es, c);
    lemma_first_text(es.take(i), c);
    if let Some(k) = first_text(es, c) {
        if k < i {
            assert(es.take(i)[k] == es[k]);
        }
    } else {
        assert(es[i] == ConstantView::Text(c));
    }
    let k = first_text(es, c)->0;
    if k > i {
        assert(es[i] == ConstantView::Text(c));
    }
}

proof fn lemma_first_bytes_prefix(es: Seq<ConstantView>, c: Seq<u8>, i: int)
    requires
        0 <= i < es.len(),
        first_bytes(es.take(i), c) is None,
        es[i] == ConstantView::Bytes(c),
    ensures
        first_bytes(es, c) == Some(i),
{
    lemma_first_bytes(es, c);
    lemma_first_bytes(es.take(i), c);
    if let Some(k) = first_bytes(es, c) {
        if k < i {
            assert(es.take(i)[k] == es[k]);
        }
    } else {
        assert(es[i] == ConstantView::Bytes(c));
    }
    let k = first_bytes(es, c)->0;
    if k > i {
        assert(es[i] == ConstantView::Bytes(c));
    }
}

proof fn lemma_first_text_none_extend(es: Seq<ConstantView>, c: Seq<char>, i: int)
    requires
        0 <= i < es.len(),
        first_text(es.take(i), c) is None,
        es[i] != ConstantView::Text(c),
    ensures
        first_text(es.take(i + 1), c) is None,
{
    assert(es.take(i + 1).drop_last() =~= es.take(i));
}

proof fn lemma_first_bytes_none_extend(es: Seq<ConstantView>, c: Seq<u8>, i: int)
    requires
        0 <= i < es.len(),
        first_bytes(es.take(i), c) is None,
        es[i] != ConstantView::Bytes(c),
    ensures
        first_bytes(es.take(i + 1), c) is None,
{
    assert(es.take(i + 1).drop_last() =~= es.take(i));
}

/// A text constant added to a pool is found again at the index it was
/// given: looking it up, or adding it once more, gives that index.
pub proof fn lemma_text_found_after_add(es: Seq<ConstantView>, c: Seq<char>)
    requires
        first_text(es, c) is None,
    ensures
        first_text(es.push(ConstantView::Text(c)), c) == Some(es.len() as int),
{
    let es2 = es.push(ConstantView::Text(c));
    assert(es2.take(es.len() as int) =~= es);
    lemma_first_text_prefix(es2, c, es.len() as int);
}

/// A byte constant added to a pool is found again at the index it was
/// given: looking it up, or adding it once more, gives that index.
pub proof fn lemma_bytes_found_after_add(es: Seq<ConstantView>, c: Seq<u8>)
    requires
        first_bytes(es, c) is None,
    ensures
        first_bytes(es.push(ConstantView::Bytes(c)), c) == Some(es.len() as int),
{
    let es2 = es.push(ConstantView::Bytes(c));
    assert(es2.take(es.len() as int) =~= es);
    lemma_first_bytes_prefix(es2, c, es.len() as int);
}

/// No constant occurs twice in the pool.
pub open spec fn no_repeats(es: Seq<ConstantView>) -> bool {
    forall|i: int, j: int| 0 <= i < j < es.len() ==> es[i] != es[j]
}

/// Adding a text constant only when it is not there keeps every constant
/// of the pool distinct.
pub proof fn lemma_add_text_keeps_no_repeats(es: Seq<ConstantView>, c: Seq<char>)
    requires
        no_repeats(es),
        first_text(es, c) is None,
    ensures
        no_repeats(es.push(ConstantView::Text(c))),
{
    lemma_first_text(es, c);
    let es2 = es.push(ConstantView::Text(c));
    assert forall|i: int, j: int| 0 <= i < j < es2.len() implies es2[i] != es2[j] by {
        if j == es.len() {
            assert(es[i] != ConstantView::Text(c));
        } else {
            assert(es2[i] == es[i] && es2[j] == es[j]);
        }
    }
}

/// Adding a byte constant only when it is not there keeps every constant
/// of the pool distinct.
pub proof fn lemma_add_bytes_keeps_no_repeats(es: Seq<ConstantView>, c: Seq<u8>)
    requires
        no_repeats(es),
        first_bytes(es, c) is None,
    ensures
        no_repeats(es.push(ConstantView::Bytes(c))),
{
    lemma_first_bytes(es, c);
    let es2 = es.push(ConstantView::Bytes(c));
    assert forall|i: int, j: int| 0 <= i < j < es2.len() implies es2[i] != es2[j] by {
        if j == es.len() {
            assert(es[i] != ConstantView::Bytes(c));
        } else {
            assert(es2[i] == es[i] && es2[j] == es[j]);
        }
    }
}

impl ConstantLib {
    pub open spec fn view(&self) -> Seq<ConstantView> {
        entries(self.0@)
    }

    pub fn new() -> (l: Self)
        ensures
            l.view().len() == 0,
            no_repeats(l.view()),
    {
        ConstantLib(Vec::new())
    }

    /// The number of constants.
    pub fn len(&self) -> (n: usize)
        ensures
            n == self.view().len(),
    {
        self.0.len()
    }

    /// The first text constant equal to `c`, with its index.
    pub fn constant_index(&self, c: String) -> (r: Option<(usize, String)>)
        ensures
            match first_text(self.view(), c@) {
                Some(k) => r matches Some((i, s)) && i == k && s@ == c@,
                None => r is None,
            },
    {
        self.constant_tindex(c)
    }

    /// The first byte constant equal to `c`, with its index.
    pub fn constant_bindex(&self, c: Vec<u8>) -> (r: Option<(usize, Vec<u8>)>)
        ensures
            match first_bytes(self.view(), c@) {
                Some(k) => r matches Some((i, s)) && i == k && s@ == c@,
                None => r is None,
            },
    {
        self._constant_bindex(c)
    }

    /// The index of the text constant `c`, added at the end of the pool
    /// when there is none.
    pub fn get_or_create_constant(&mut self, c: String) -> (r: (usize, String))
        ensures
            r.1@ == c@,
            first_text(old(self).view(), c@) matches Some(k) ==> r.0 == k && final(self).view() == old(self).view(),
            first_text(old(self).view(), c@) is None ==> r.0 == old(self).view().len()
                && final(self).view() == old(self).view().push(ConstantView::Text(c@)),
            r.0 < final(self).view().len(),
            final(self).view()[r.0 as int] == ConstantView::Text(c@),
            final(self).view().take(old(self).view().len() as int) == old(self).view(),
            no_repeats(old(self).view()) ==> no_repeats(final(self).view()),
    {
        self.get_or_create_tconstant(c)
    }

    /// The first text constant equal to `c`, with its index.
    pub fn constant_tindex(&self, c: String) -> (r: Option<(usize, String)>)
        ensures
            match first_text(self.view(), c@) {
                Some(k) => r matches Some((i, s)) && i == k && s@ == c@,
                None => r is None,
            },
    {
        let ghost es = self.view();
        let mut idx: usize = 0;
        while idx < self.0.len()
            invariant
                es == self.view(),
                idx <= es.len(),
                first_text(es.take(idx as int), c@) is None,
            decreases es.len() - idx,
        {
            match &self.0[idx] {
                ConstantString::ZString(a) => {
                    if *a == c {
                        proof {
                            lemma_first_text_prefix(es, c@, idx as int);
                        }
                        return Some((idx, a.clone()));
                    }
                },
                _ => {},
            }
            proof {
                lemma_first_text_none_extend(es, c@, idx as int);
            }
            idx += 1;
        }
        assert(es.take(idx as int) =~= es);
        None
    }

    pub fn _constant_bindex(&self, c: Vec<u8>) -> (r: Option<(usize, Vec<u8>)>)
        ensures
            match first_bytes(self.view(), c@) {
                Some(k) => r matches Some((i, s)) && i == k && s@ == c@,
                None => r is None,
            },
    {
        let ghost es = self.view();
        let mut idx: usize = 0;
        while idx < self.0.len()
            invariant
                es == self.view(),
                idx <= es.len(),
                first_bytes(es.take(idx as int), c@) is None,
            decreases es.len() - idx,
        {
            match &self.0[idx] {
                ConstantString::ZBytes(a) => {
                    if bytes_eq(a.as_slice(), c.as_slice()) {
                        proof {
                            lemma_first_bytes_prefix(es, c@, idx as int);
                        }
                        return Some((idx, a.clone()));
                    }
                },
                _ => {},
            }
            proof {
                lemma_first_bytes_none_extend(es, c@, idx as int);
            }
            idx += 1;
        }
        assert(es.take(idx as int) =~= es);
        None
    }

    /// The index of the text constant `c`, added at the end of the pool
    /// when there is none.
    pub fn get_or_create_tconstant(&mut self, c: String) -> (r: (usize, String))
        ensures
            r.1@ == c@,
            first_text(old(self).view(), c@) matches Some(k) ==> r.0 == k && final(self).view() == old(self).view(),
            first_text(old(self).view(), c@) is None ==> r.0 == old(self).view().len()
                && final(self).view() == old(self).view().push(ConstantView::Text(c@)),
            r.0 < final(self).view().len(),
            final(self).view()[r.0 as int] == ConstantView::Text(c@),
            final(self).view().take(old(self).view().len() as int) == old(self).view(),
            no_repeats(old(self).view()) ==> no_repeats(final(self).view()),
    {
        proof {
            lemma_first_text(self.view(), c@);
            assert(self.view().take(self.view().len() as int) =~= self.view());
        }
        match self.constant_tindex(c.clone()) {
            Some(a) => a,
            _ => {
                self.0.push(ConstantString::ZString(c.clone()));
                assert(self.view() =~= old(self).view().push(ConstantView::Text(c@)));
                proof {
                    if no_repeats(old(self).view()) {
                        lemma_add_text_keeps_no_repeats(old(self).view(), c@);
                    }
                    assert(self.view().take(old(self).view().len() as int) =~= old(self).view());
                }
                (self.0.len() - 1, c)
            },
        }
    }

    /// The index of the byte constant `c`, added at the end of the pool
    /// when there is none.
    pub fn get_or_create_bconstant(&mut self, c: Vec<u8>) -> (r: (usize, Vec<u8>))
        ensures
            r.1@ == c@,
            first_bytes(old(self).view(), c@) matches Some(k) ==> r.0 == k && final(self).view() == old(self).view(),
            first_bytes(old(self).view(), c@) is None ==> r.0 == old(self).view().len()
                && final(self).view() == old(self).view().push(ConstantView::Bytes(c@)),
            r.0 < final(self).view().len(),
            final(self).view()[r.0 as int] == ConstantView::Bytes(c@),
            final(self).view().take(old(self).view().len() as int) == old(self).view(),
            no_repeats(old(self).view()) ==> no_repeats(final(self).view()),
    {
        proof {
            lemma_first_bytes(self.view(), c@);
            assert(self.view().take(self.view().len() as int) =~= self.view());
        }
        match self._constant_bindex(c.clone()) {
            Some(a) => a,
            _ => {
                self.0.push(ConstantString::ZBytes(c.clone()));
                assert(self.view() =~= old(self).view().push(ConstantView::Bytes(c@)));
                proof {
                    if no_repeats(old(self).view()) {
                        lemma_add_bytes_keeps_no_repeats(old(self).view(), c@);
                    }
                    assert(self.view().take(old(self).view().len() as int) =~= old(self).view());
                }
                (self.0.len() - 1, c)
            },
        }
    }
}

} // verus!
