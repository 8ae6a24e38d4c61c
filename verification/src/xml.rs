use vstd::prelude::*;
use crate::text::str_eq;

verus! {

broadcast use vstd::std_specs::vec::group_vec_axioms;

/// Abstract value of one XML element: tag, attributes in document order,
/// text directly under the element, and element children in document order.
pub struct XmlV {
    pub tag: Seq<char>,
    pub attrs: Seq<(Seq<char>, Seq<char>)>,
    pub text: Option<Seq<char>>,
    pub children: Seq<XmlV>,
}

/// One attribute of an XML element.
pub struct Attr {
    pub name: String,
    pub value: String,
}

impl View for Attr {
    type V = (Seq<char>, Seq<char>);

    open spec fn view(&self) -> (Seq<char>, Seq<char>) {
        (self.name@, self.value@)
    }
}

/// One XML element, held as plain values.
pub struct XmlElem {
    pub tag: String,
    pub attrs: Vec<Attr>,
    pub text: Option<String>,
    pub children: Vec<XmlElem>,
}

/// The abstract value of one element.
pub open spec fn xml_v(x: XmlElem) -> XmlV
    decreases x, 1int,
{
    XmlV {
        tag: x.tag@,
        attrs: Seq::new(x.attrs@.len(), |i: int| x.attrs@[i]@),
        text: match x.text {
            Some(t) => Some(t@),
            None => None,
        },
        children: xml_vs(x.children@, 0),
    }
}

/// The abstract values of the elements `cs[from..]`, in order.
pub open spec fn xml_vs(cs: Seq<XmlElem>, from: int) -> Seq<XmlV>
    decreases cs, cs.len() - from,
{
    if from < 0 || from >= cs.len() {
        Seq::empty()
    } else {
        seq![xml_v(cs[from])] + xml_vs(cs, from + 1)
    }
}

impl View for XmlElem {
    type V = XmlV;

    open spec fn view(&self) -> XmlV {
        xml_v(*self)
    }
}

/// `xml_vs(cs, from)` holds exactly the values of `cs[from..]`, in order.
pub proof fn lemma_xml_vs(cs: Seq<XmlElem>, from: int)
    requires
        0 <= from <= cs.len(),
    ensures
        xml_vs(cs, from).len() == cs.len() - from,
        forall|k: int| from <= k < cs.len() ==> xml_vs(cs, from)[k - from] == xml_v(cs[k]),
    decreases cs.len() - from,
{
    if from < cs.len() {
        lemma_xml_vs(cs, from + 1);
    }
}

/// The descendants of `x` (including `x` itself) whose tag is `tag`,
/// in document (pre-)order.
pub open spec fn tagged(x: XmlV, tag: Seq<char>) -> Seq<XmlV>
    decreases x, 1int,
{
    let below = tagged_seq(x.children, 0, tag);
    if x.tag == tag {
        seq![x] + below
    } else {
        below
    }
}

/// The matching descendants of the elements `cs[from..]`, concatenated in order.
pub open spec fn tagged_seq(cs: Seq<XmlV>, from: int, tag: Seq<char>) -> Seq<XmlV>
    decreases cs, cs.len() - from,
{
    if from < 0 || from >= cs.len() {
        Seq::empty()
    } else {
        tagged(cs[from], tag) + tagged_seq(cs, from + 1, tag)
    }
}

/// The value of the first attribute of `attrs[from..]` named `name`.
pub open spec fn attr_from(
    attrs: Seq<(Seq<char>, Seq<char>)>,
    from: int,
    name: Seq<char>,
) -> Option<Seq<char>>
    decreases attrs.len() - from,
{
    if from < 0 || from >= attrs.len() {
        None
    } else if attrs[from].0 == name {
        Some(attrs[from].1)
    } else {
        attr_from(attrs, from + 1, name)
    }
}

/// The value of the attribute of `x` named `name`.
pub open spec fn attr_of(x: XmlV, name: Seq<char>) -> Option<Seq<char>> {
    attr_from(x.attrs, 0, name)
}

/// The first element of `cs[from..]` whose tag is `tag`.
pub open spec fn child_from(cs: Seq<XmlV>, from: int, tag: Seq<char>) -> Option<XmlV>
    decreases cs.len() - from,
{
    if from < 0 || from >= cs.len() {
        None
    } else if cs[from].tag == tag {
        Some(cs[from])
    } else {
        child_from(cs, from + 1, tag)
    }
}

/// The first direct child of `x` whose tag is `tag`.
pub open spec fn first_child(x: XmlV, tag: Seq<char>) -> Option<XmlV> {
    child_from(x.children, 0, tag)
}

/// The values of a sequence of borrowed elements.
pub open spec fn views_of_refs(s: Seq<&XmlElem>) -> Seq<XmlV> {
    Seq::new(s.len(), |i: int| xml_v(*s[i]))
}

impl XmlElem {
    /// Looks up the attribute named `name`, first occurrence in document order.
    pub fn attribute<'a>(&'a self, name: &str) -> (r: Option<&'a String>)
        ensures
            match r {
                Some(v) => attr_of(self@, name@) == Some(v@),
                None => attr_of(self@, name@) is None,
            },
    {
        let n = self.attrs.len();
        let mut i: usize = 0;
        while i < n
            invariant
                0 <= i <= n,
                n == self.attrs@.len(),
                attr_from(self@.attrs, 0, name@) == attr_from(self@.attrs, i as int, name@),
                self@.attrs.len() == n,
                forall|k: int| 0 <= k < n ==> self@.attrs[k] == self.attrs@[k]@,
            decreases n - i,
        {
            if str_eq(self.attrs[i].name.as_str(), name) {
                return Some(&self.attrs[i].value);
            }
            i += 1;
        }
        None
    }

    /// Finds the first direct child element tagged `tag`.
    pub fn child_tagged<'a>(&'a self, tag: &str) -> (r: Option<&'a XmlElem>)
        ensures
            match r {
                Some(c) => first_child(self@, tag@) == Some(c@),
                None => first_child(self@, tag@) is None,
            },
    {
        let n = self.children.len();
        proof {
            lemma_xml_vs(self.children@, 0);
        }
        let mut i: usize = 0;
        while i < n
            invariant
                0 <= i <= n,
                n == self.children@.len(),
                child_from(self@.children, 0, tag@) == child_from(self@.children, i as int, tag@),
                self@.children.len() == n,
                forall|k: int| 0 <= k < n ==> self@.children[k] == xml_v(self.children@[k]),
            decreases n - i,
        {
            if str_eq(self.children[i].tag.as_str(), tag) {
                return Some(&self.children[i]);
            }
            i += 1;
        }
        None
    }

    /// Collects the descendants of `self` (including `self`) tagged `tag`,
    /// in document order.
    pub fn descendants_tagged<'a>(&'a self, tag: &str) -> (r: Vec<&'a XmlElem>)
        ensures
            views_of_refs(r@) == tagged(self@, tag@),
    {
        let mut out: Vec<&XmlElem> = Vec::new();
        assert(views_of_refs(out@) =~= Seq::<XmlV>::empty());
        collect_tagged(self, tag, &mut out);
        assert(views_of_refs(out@) =~= tagged(self@, tag@));
        out
    }
}

fn collect_tagged<'a>(x: &'a XmlElem, tag: &str, out: &mut Vec<&'a XmlElem>)
    ensures
        views_of_refs(final(out)@) == views_of_refs(old(out)@) + tagged(x@, tag@),
    decreases *x,
{
    let ghost base = out@;
    if str_eq(x.tag.as_str(), tag) {
        out.push(x);
        assert(views_of_refs(out@) =~= views_of_refs(base) + seq![xml_v(*x)]);
    }
    let ghost mid = out@;
    let ghost cs = x@.children;
    let n = x.children.len();
    proof {
        lemma_xml_vs(x.children@, 0);
        assert(cs.len() == n);
    }
    let mut i: usize = 0;
    while i < n
        invariant
            0 <= i <= n,
            n == x.children@.len(),
            cs == x@.children,
            cs.len() == n,
            forall|k: int| 0 <= k < n ==> cs[k] == xml_v(x.children@[k]),
            views_of_refs(out@) + tagged_seq(cs, i as int, tag@) == views_of_refs(mid)
                + tagged_seq(cs, 0, tag@),
        decreases n - i,
    {
        let ghost before = out@;
        collect_tagged(&x.children[i], tag, out);
        proof {
            assert(tagged_seq(cs, i as int, tag@) == tagged(cs[i as int], tag@) + tagged_seq(
                cs,
                i + 1,
                tag@,
            ));
            assert(views_of_refs(out@) + tagged_seq(cs, i + 1, tag@) =~= (views_of_refs(before)
                + tagged(cs[i as int], tag@)) + tagged_seq(cs, i + 1, tag@));
            assert((views_of_refs(before) + tagged(cs[i as int], tag@)) + tagged_seq(
                cs,
                i + 1,
                tag@,
            ) =~= views_of_refs(before) + tagged_seq(cs, i as int, tag@));
            assert(views_of_refs(before) + tagged_seq(cs, i as int, tag@) =~= views_of_refs(mid)
                + tagged_seq(cs, 0, tag@));
        }
        i += 1;
    }
    proof {
        assert(tagged_seq(cs, n as int, tag@) =~= Seq::<XmlV>::empty());
        assert(views_of_refs(out@) =~= views_of_refs(out@) + tagged_seq(cs, n as int, tag@));
        if x@.tag == tag@ {
            assert(views_of_refs(mid) =~= views_of_refs(base) + seq![xml_v(*x)]);
            assert(tagged(x@, tag@) == seq![x@] + tagged_seq(cs, 0, tag@));
            assert(views_of_refs(out@) =~= views_of_refs(base) + tagged(x@, tag@));
        } else {
            assert(tagged(x@, tag@) == tagged_seq(cs, 0, tag@));
            assert(views_of_refs(out@) =~= views_of_refs(base) + tagged(x@, tag@));
        }
    }
}

} // verus!
