//! Gestures, actions and the binding store.
//!
//! The store keeps the bindings in the order they were applied; its view is
//! the device -> gesture -> action map that this order produces, where a
//! later binding of the same (device, gesture) key overrides an earlier one.

use vstd::prelude::*;

verus! {

/// A scalar value of a gesture field.
pub enum Scalar {
    Text(String),
    Integer(i64),
    Boolean(bool),
}

pub enum ScalarView {
    Text(Seq<char>),
    Integer(i64),
    Boolean(bool),
}

impl View for Scalar {
    type V = ScalarView;

    open spec fn view(&self) -> ScalarView {
        match self {
            Scalar::Text(s) => ScalarView::Text(s@),
            Scalar::Integer(i) => ScalarView::Integer(*i),
            Scalar::Boolean(b) => ScalarView::Boolean(*b),
        }
    }
}

impl Scalar {
    pub fn same_as(&self, other: &Scalar) -> (r: bool)
        ensures
            r == (self@ == other@),
    {
        match (self, other) {
            (Scalar::Text(a), Scalar::Text(b)) => *a == *b,
            (Scalar::Integer(a), Scalar::Integer(b)) => *a == *b,
            (Scalar::Boolean(a), Scalar::Boolean(b)) => *a == *b,
            _ => false,
        }
    }
}

/// A gesture, as the named fields that describe it, in the order of their
/// names. The store never looks inside a gesture: it only compares two of
/// them for equality.
pub struct Gesture {
    pub fields: Vec<(String, Scalar)>,
}

pub type GestureView = Seq<(Seq<char>, ScalarView)>;

pub open spec fn gesture_fields_view(fs: Seq<(String, Scalar)>) -> GestureView {
    fs.map_values(|f: (String, Scalar)| (f.0@, f.1@))
}

impl View for Gesture {
    type V = GestureView;

    open spec fn view(&self) -> GestureView {
        gesture_fields_view(self.fields@)
    }
}

impl Gesture {
    pub fn same_as(&self, other: &Gesture) -> (r: bool)
        ensures
            r == (self@ == other@),
    {
        let n = self.fields.len();
        if n != other.fields.len() {
            assert(self@.len() != other@.len());
            return false;
        }
        let mut i: usize = 0;
        while i < n
            invariant
                n == self.fields.len(),
                n == other.fields.len(),
                0 <= i <= n,
                forall|j: int| 0 <= j < i ==> self@[j] == other@[j],
            decreases n - i,
        {
            let a = &self.fields[i];
            let b = &other.fields[i];
            if !(a.0 == b.0) || !a.1.same_as(&b.1) {
                assert(self@[i as int] != other@[i as int]);
                return false;
            }
            i += 1;
        }
        assert(self@ =~= other@);
        true
    }
}

/// What the daemon does when a gesture is recognised.
pub enum Action {
    /// Nothing; also the action of a gesture configured without one.
    NoOp,
    /// Run a command.
    Execute(String),
}

pub enum ActionView {
    NoOp,
    Execute(Seq<char>),
}

impl View for Action {
    type V = ActionView;

    open spec fn view(&self) -> ActionView {
        match self {
            Action::NoOp => ActionView::NoOp,
            Action::Execute(c) => ActionView::Execute(c@),
        }
    }
}

impl Default for Action {
    fn default() -> (r: Action)
        ensures
            r@ == ActionView::NoOp,
    {
        Action::NoOp
    }
}

/// One step of building the store: make sure `device` is present and, when
/// `rule` is given, bind its gesture to its action on that device.
pub struct Binding {
    pub device: String,
    pub rule: Option<(Gesture, Action)>,
}

pub struct BindingView {
    pub device: Seq<char>,
    pub rule: Option<(GestureView, ActionView)>,
}

impl View for Binding {
    type V = BindingView;

    open spec fn view(&self) -> BindingView {
        BindingView {
            device: self.device@,
            rule: match self.rule {
                Some(r) => Some((r.0@, r.1@)),
                None => None,
            },
        }
    }
}

pub open spec fn bindings_view(bs: Seq<Binding>) -> Seq<BindingView> {
    bs.map_values(|b: Binding| b@)
}

/// Device -> gesture -> action.
pub type StoreView = Map<Seq<char>, Map<GestureView, ActionView>>;

pub open spec fn with_device(m: StoreView, d: Seq<char>) -> StoreView {
    if m.contains_key(d) {
        m
    } else {
        m.insert(d, Map::empty())
    }
}

pub open spec fn apply_binding(m: StoreView, b: BindingView) -> StoreView {
    let m1 = with_device(m, b.device);
    match b.rule {
        Some(r) => m1.insert(b.device, m1[b.device].insert(r.0, r.1)),
        None => m1,
    }
}

/// The store after applying `bs` to `m`, first to last.
pub open spec fn apply_bindings(m: StoreView, bs: Seq<BindingView>) -> StoreView
    decreases bs.len(),
{
    if bs.len() == 0 {
        m
    } else {
        apply_binding(apply_bindings(m, bs.drop_last()), bs.last())
    }
}

/// The action bound to (`d`, `g`) in `m`, if any.
pub open spec fn lookup_in(m: StoreView, d: Seq<char>, g: GestureView) -> Option<ActionView> {
    if m.contains_key(d) && m[d].contains_key(g) {
        Some(m[d][g])
    } else {
        None
    }
}

pub open spec fn binds(b: BindingView, d: Seq<char>, g: GestureView) -> bool {
    b.device == d && b.rule is Some && b.rule.unwrap().0 == g
}

/// The action of the last binding in `bs` of (`d`, `g`), if there is one.
pub open spec fn last_rule(bs: Seq<BindingView>, d: Seq<char>, g: GestureView) -> Option<ActionView>
    decreases bs.len(),
{
    if bs.len() == 0 {
        None
    } else if binds(bs.last(), d, g) {
        Some(bs.last().rule.unwrap().1)
    } else {
        last_rule(bs.drop_last(), d, g)
    }
}

pub open spec fn mentions(bs: Seq<BindingView>, d: Seq<char>) -> bool {
    exists|i: int| 0 <= i < bs.len() && #[trigger] bs[i].device == d
}

pub proof fn lemma_apply_concat(m: StoreView, a: Seq<BindingView>, b: Seq<BindingView>)
    ensures
        apply_bindings(m, a + b) == apply_bindings(apply_bindings(m, a), b),
    decreases b.len(),
{
    if b.len() == 0 {
        assert(a + b =~= a);
    } else {
        lemma_apply_concat(m, a, b.drop_last());
        assert((a + b).drop_last() =~= a + b.drop_last());
        assert((a + b).last() == b.last());
    }
}

/// The action of (`d`, `g`) after `bs` is that of the last binding of the
/// key in `bs`, or else the one it had before.
pub proof fn lemma_lookup_after(m: StoreView, bs: Seq<BindingView>, d: Seq<char>, g: GestureView)
    ensures
        lookup_in(apply_bindings(m, bs), d, g) == match last_rule(bs, d, g) {
            Some(a) => Some(a),
            None => lookup_in(m, d, g),
        },
    decreases bs.len(),
{
    if bs.len() > 0 {
        lemma_lookup_after(m, bs.drop_last(), d, g);
    }
}

/// After `bs` a device is present exactly when it was before or `bs`
/// names it.
pub proof fn lemma_devices_after(m: StoreView, bs: Seq<BindingView>, d: Seq<char>)
    ensures
        apply_bindings(m, bs).contains_key(d) == (m.contains_key(d) || mentions(bs, d)),
    decreases bs.len(),
{
    if bs.len() > 0 {
        let init = bs.drop_last();
        lemma_devices_after(m, init, d);
        if mentions(bs, d) {
            let i = choose|i: int| 0 <= i < bs.len() && #[trigger] bs[i].device == d;
            if i < bs.len() - 1 {
                assert(init[i].device == d);
            }
        }
        if mentions(init, d) {
            let i = choose|i: int| 0 <= i < init.len() && #[trigger] init[i].device == d;
            assert(bs[i].device == d);
        }
        if bs.last().device == d {
            assert(bs[bs.len() - 1].device == d);
        }
    }
}

/// Two stores with the same devices and the same action for every key are
/// equal.
pub proof fn lemma_store_ext(m1: StoreView, m2: StoreView)
    requires
        forall|d: Seq<char>| m1.contains_key(d) == m2.contains_key(d),
        forall|d: Seq<char>, g: GestureView| lookup_in(m1, d, g) == lookup_in(m2, d, g),
    ensures
        m1 == m2,
{
    assert forall|d: Seq<char>| m1.contains_key(d) implies m1[d] =~= m2[d] by {
        assert forall|g: GestureView| #[trigger] m1[d].contains_key(g) == m2[d].contains_key(g) by {
            assert(lookup_in(m1, d, g) == lookup_in(m2, d, g));
        }
        assert forall|g: GestureView| m1[d].contains_key(g) implies m1[d][g] == m2[d][g] by {
            assert(lookup_in(m1, d, g) == lookup_in(m2, d, g));
        }
    }
    assert(m1 =~= m2);
}

/// Two sources that bind no (device, gesture) key in common give the same
/// store whichever is applied first, and that store holds the bindings of
/// both.
pub proof fn lemma_disjoint_sources_commute(m: StoreView, a: Seq<BindingView>, b: Seq<BindingView>)
    requires
        forall|d: Seq<char>, g: GestureView|
            !(#[trigger] last_rule(a, d, g) is Some && last_rule(b, d, g) is Some),
    ensures
        apply_bindings(apply_bindings(m, a), b) == apply_bindings(apply_bindings(m, b), a),
        forall|d: Seq<char>, g: GestureView|
            #[trigger] lookup_in(apply_bindings(apply_bindings(m, a), b), d, g) == match last_rule(a, d, g) {
                Some(x) => Some(x),
                None => match last_rule(b, d, g) {
                    Some(y) => Some(y),
                    None => lookup_in(m, d, g),
                },
            },
{
    let x = apply_bindings(apply_bindings(m, a), b);
    let y = apply_bindings(apply_bindings(m, b), a);
    assert forall|d: Seq<char>| x.contains_key(d) == y.contains_key(d) by {
        lemma_devices_after(m, a, d);
        lemma_devices_after(apply_bindings(m, a), b, d);
        lemma_devices_after(m, b, d);
        lemma_devices_after(apply_bindings(m, b), a, d);
    }
    assert forall|d: Seq<char>, g: GestureView|
        #[trigger] lookup_in(x, d, g) == match last_rule(a, d, g) {
            Some(p) => Some(p),
            None => match last_rule(b, d, g) {
                Some(q) => Some(q),
                None => lookup_in(m, d, g),
            },
        } && lookup_in(x, d, g) == lookup_in(y, d, g) by {
        assert(!(last_rule(a, d, g) is Some && last_rule(b, d, g) is Some));
        lemma_lookup_after(m, a, d, g);
        lemma_lookup_after(apply_bindings(m, a), b, d, g);
        lemma_lookup_after(m, b, d, g);
        lemma_lookup_after(apply_bindings(m, b), a, d, g);
    }
    lemma_store_ext(x, y);
}

/// Where a later source binds a key, the key's action is the later
/// source's, whatever an earlier source held and in whatever order it was
/// applied.
pub proof fn lemma_later_source_wins(
    m: StoreView,
    earlier: Seq<BindingView>,
    later: Seq<BindingView>,
    d: Seq<char>,
    g: GestureView,
)
    requires
        last_rule(later, d, g) is Some,
    ensures
        lookup_in(apply_bindings(apply_bindings(m, earlier), later), d, g) == last_rule(later, d, g),
{
    lemma_lookup_after(apply_bindings(m, earlier), later, d, g);
}

/// The bindings that resolution produced, in the order they were applied.
pub struct Configuration {
    pub bindings: Vec<Binding>,
}

impl View for Configuration {
    type V = StoreView;

    open spec fn view(&self) -> StoreView {
        apply_bindings(Map::empty(), bindings_view(self.bindings@))
    }
}

impl Configuration {
    /// An empty store.
    pub fn new() -> (r: Configuration)
        ensures
            r@ == Map::<Seq<char>, Map<GestureView, ActionView>>::empty(),
    {
        let r = Configuration { bindings: Vec::new() };
        assert(bindings_view(r.bindings@) =~= Seq::empty());
        r
    }

    /// Applies `bs` after the bindings already held.
    pub fn add_bindings(&mut self, bs: Vec<Binding>)
        ensures
            final(self)@ == apply_bindings(old(self)@, bindings_view(bs@)),
    {
        let mut bs = bs;
        let ghost before = self.bindings@;
        let ghost added = bs@;
        self.bindings.append(&mut bs);
        proof {
            assert(bindings_view(self.bindings@) =~= bindings_view(before) + bindings_view(added));
            lemma_apply_concat(Map::empty(), bindings_view(before), bindings_view(added));
        }
    }

    /// Whether no device is configured.
    pub fn is_empty(&self) -> (r: bool)
        ensures
            r == (self@.dom() == Set::<Seq<char>>::empty()),
    {
        let r = self.bindings.len() == 0;
        proof {
            let bs = bindings_view(self.bindings@);
            if !r {
                assert(self@.contains_key(bs.last().device));
            } else {
                assert(bs =~= Seq::empty());
                assert(self@.dom() =~= Set::<Seq<char>>::empty());
            }
        }
        r
    }

    /// Whether `device` is configured.
    pub fn has_device(&self, device: &String) -> (r: bool)
        ensures
            r == self@.contains_key(device@),
    {
        let ghost bs = bindings_view(self.bindings@);
        proof {
            lemma_devices_after(Map::empty(), bs, device@);
        }
        let mut i: usize = 0;
        while i < self.bindings.len()
            invariant
                bs == bindings_view(self.bindings@),
                0 <= i <= self.bindings.len(),
                forall|j: int| 0 <= j < i ==> #[trigger] bs[j].device != device@,
            decreases self.bindings.len() - i,
        {
            if self.bindings[i].device == *device {
                assert(bs[i as int].device == device@);
                assert(mentions(bs, device@));
                proof {
                    lemma_devices_after(Map::empty(), bs, device@);
                }
                return true;
            }
            i += 1;
        }
        proof {
            assert(!mentions(bs, device@));
        }
        false
    }

    /// The action bound to `gesture` on `device`, if any.
    pub fn lookup(&self, device: &String, gesture: &Gesture) -> (r: Option<&Action>)
        ensures
            match r {
                Some(a) => lookup_in(self@, device@, gesture@) == Some(a@),
                None => lookup_in(self@, device@, gesture@) is None,
            },
    {
        let ghost bs = bindings_view(self.bindings@);
        proof {
            lemma_lookup_after(Map::empty(), bs, device@, gesture@);
        }
        let mut i: usize = self.bindings.len();
        assert(bs.take(i as int) =~= bs);
        while i > 0
            invariant
                bs == bindings_view(self.bindings@),
                0 <= i <= self.bindings.len(),
                last_rule(bs, device@, gesture@) == last_rule(bs.take(i as int), device@, gesture@),
            decreases i,
        {
            let b = &self.bindings[i - 1];
            assert(bs.take(i as int).drop_last() =~= bs.take(i - 1));
            assert(bs.take(i as int).last() == bs[i - 1]);
            match &b.rule {
                Some(rule) => {
                    if b.device == *device && rule.0.same_as(gesture) {
                        assert(binds(bs[i - 1], device@, gesture@));
                        proof {
                            lemma_lookup_after(Map::empty(), bs, device@, gesture@);
                        }
                        return Some(&rule.1);
                    }
                },
                None => {},
            }
            i -= 1;
        }
        assert(bs.take(0) =~= Seq::empty());
        None
    }
}

} // verus!
