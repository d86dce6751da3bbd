use vstd::prelude::*;
use crate::text::{bytes_eq, clone_bytes, lit_lo, lit_one, lit_unknown, lit_up, lo_text, one_text,
    opt_bytes_view, trim_copy, trimmed, unknown_text, up_text, views_of};
use crate::route::{default_route_iface, default_route_spec};

verus! {

#[verifier::external_type_specification]
#[verifier::external_body]
pub struct ExRegex(regex::Regex);

/// Whether the name matches the pattern compiled from the given text: a
/// function of the two texts alone.
pub uninterp spec fn pattern_matches(pat: Seq<u8>, name: Seq<u8>) -> bool;

/// A compiled interface-name pattern, kept together with the text it was
/// compiled from; its view is that text.
pub struct Pattern {
    re: regex::Regex,
    src: Vec<u8>,
}

impl View for Pattern {
    type V = Seq<u8>;

    closed spec fn view(&self) -> Seq<u8> {
        self.src@
    }
}

impl Pattern {
    /// Relies on regex::Regex::new: compiles the pattern text, and fails —
    /// yielding `None` — when the text is not valid UTF-8 or not a valid
    /// pattern.
    #[verifier::external_body]
    pub fn compile(pat: &[u8]) -> (r: Option<Pattern>)
        ensures
            r matches Some(p) ==> p@ == pat@,
    {
        match core::str::from_utf8(pat) {
            Ok(s) => match regex::Regex::new(s) {
                Ok(re) => Some(Pattern { re, src: pat.to_vec() }),
                Err(_) => None,
            },
            Err(_) => None,
        }
    }

    /// Relies on regex::Regex::is_match: whether a name matches depends on
    /// the pattern text and the name alone; a name that is not valid UTF-8
    /// never matches.
    #[verifier::external_body]
    pub fn is_match(&self, name: &[u8]) -> (r: bool)
        ensures
            r == pattern_matches(self@, name@),
    {
        match core::str::from_utf8(name) {
            Ok(s) => self.re.is_match(s),
            Err(_) => false,
        }
    }
}

/// One enumerated interface: its name and the raw texts of its
/// operational-state and carrier files (empty when unreadable).
#[derive(Clone, PartialEq, Eq, Debug)]
pub struct IfaceInfo {
    pub name: Vec<u8>,
    pub operstate: Vec<u8>,
    pub carrier: Vec<u8>,
}

/// An interface counts as up when its trimmed operational state is `up`, or
/// is `unknown` while its trimmed carrier text is `1`.
pub open spec fn is_up_spec(op: Seq<u8>, car: Seq<u8>) -> bool {
    trimmed(op) == up_text() || (trimmed(op) == unknown_text() && trimmed(car) == one_text())
}

/// An interface is a selection candidate when it is up and is not the
/// loopback interface.
pub open spec fn info_selectable(i: IfaceInfo) -> bool {
    i.name@ != lo_text() && is_up_spec(i.operstate@, i.carrier@)
}

/// The names of the selection candidates, in enumeration order.
pub open spec fn up_names(s: Seq<IfaceInfo>) -> Seq<Seq<u8>>
    decreases s.len(),
{
    if s.len() == 0 {
        Seq::<Seq<u8>>::empty()
    } else {
        up_names(s.drop_last()) + (if info_selectable(s.last()) {
            seq![s.last().name@]
        } else {
            Seq::<Seq<u8>>::empty()
        })
    }
}

/// The first of the names that matches the pattern text.
pub open spec fn first_match(pat: Seq<u8>, names: Seq<Seq<u8>>) -> Option<Seq<u8>>
    decreases names.len(),
{
    if names.len() == 0 {
        None
    } else if pattern_matches(pat, names[0]) {
        Some(names[0])
    } else {
        first_match(pat, names.drop_first())
    }
}

/// The view of an optional pattern.
pub open spec fn opt_pat_view(p: Option<&Pattern>) -> Option<Seq<u8>> {
    match p {
        Some(q) => Some(q@),
        None => None,
    }
}

/// The selection policy: with a pattern, the first up non-loopback
/// interface whose name matches it; then the default-route interface,
/// unless that is the loopback interface, which is never selected; then
/// the first up non-loopback interface; else none.
pub open spec fn pick_spec(pat: Option<Seq<u8>>, infos: Seq<IfaceInfo>, route: Seq<u8>) -> Option<
    Seq<u8>,
> {
    let ups = up_names(infos);
    let m = if pat is Some {
        first_match(pat.unwrap(), ups)
    } else {
        None
    };
    let d = default_route_spec(route);
    if m is Some {
        m
    } else if d is Some && d != Some(lo_text()) {
        d
    } else if ups.len() > 0 {
        Some(ups[0])
    } else {
        None
    }
}

/// Whether the interface counts as up, from the raw texts of its
/// operational-state and carrier files.
pub fn iface_is_up(op: &[u8], car: &[u8]) -> (r: bool)
    ensures
        r == is_up_spec(op@, car@),
{
    let t = trim_copy(op);
    let lu = lit_up();
    if bytes_eq(t.as_slice(), lu.as_slice()) {
        return true;
    }
    let un = lit_unknown();
    if bytes_eq(t.as_slice(), un.as_slice()) {
        let c = trim_copy(car);
        let one = lit_one();
        return bytes_eq(c.as_slice(), one.as_slice());
    }
    false
}

/// The names of the up non-loopback interfaces, in enumeration order.
pub fn up_ifaces(infos: &Vec<IfaceInfo>) -> (r: Vec<Vec<u8>>)
    ensures
        views_of(r@) == up_names(infos@),
{
    let mut r: Vec<Vec<u8>> = Vec::new();
    let mut i: usize = 0;
    while i < infos.len()
        invariant
            0 <= i <= infos@.len(),
            views_of(r@) == up_names(infos@.take(i as int)),
        decreases infos@.len() - i,
    {
        let ghost pre = views_of(r@);
        let info = &infos[i];
        let lo = lit_lo();
        let take_it = !bytes_eq(info.name.as_slice(), lo.as_slice()) && iface_is_up(
            info.operstate.as_slice(),
            info.carrier.as_slice(),
        );
        if take_it {
            r.push(clone_bytes(&info.name));
        }
        i += 1;
        proof {
            assert(infos@.take(i as int).drop_last() =~= infos@.take(i - 1));
            assert(infos@.take(i as int).last() == infos@[i - 1]);
            if take_it {
                assert(views_of(r@) =~= pre + seq![infos@[i - 1].name@]);
            } else {
                assert(views_of(r@) =~= pre + Seq::<Seq<u8>>::empty());
            }
        }
    }
    proof {
        assert(infos@.take(infos@.len() as int) =~= infos@);
    }
    r
}

/// Select the interface to monitor: with a pattern, the first up
/// non-loopback interface matching it; otherwise, or when nothing matches,
/// the default-route interface from the routing-table text; otherwise the
/// first up non-loopback interface; `None` when all of that fails.
pub fn pick_iface(pattern: Option<&Pattern>, infos: &Vec<IfaceInfo>, route: &[u8]) -> (r: Option<
    Vec<u8>,
>)
    ensures
        opt_bytes_view(r) == pick_spec(opt_pat_view(pattern), infos@, route@),
{
    let ups = up_ifaces(infos);
    let ghost names = up_names(infos@);
    if pattern.is_some() {
        let p = pattern.unwrap();
        proof {
            assert(names.skip(0) =~= names);
        }
        let mut i: usize = 0;
        while i < ups.len()
            invariant
                0 <= i <= ups@.len(),
                views_of(ups@) == names,
                names == up_names(infos@),
                opt_pat_view(pattern) == Some(p@),
                first_match(p@, names) == first_match(p@, names.skip(i as int)),
            decreases ups@.len() - i,
        {
            proof {
                assert(names.skip(i as int)[0] == ups@[i as int]@);
            }
            if p.is_match(ups[i].as_slice()) {
                let name = clone_bytes(&ups[i]);
                proof {
                    assert(names.len() == ups@.len());
                    assert(first_match(p@, names.skip(i as int)) == Some(ups@[i as int]@));
                    assert(first_match(p@, up_names(infos@)) == Some(name@));
                    assert(opt_pat_view(pattern) == Some(p@));
                    assert(pick_spec(opt_pat_view(pattern), infos@, route@) == Some(name@));
                }
                return Some(name);
            }
            proof {
                assert(names.skip(i as int).drop_first() =~= names.skip(i + 1));
            }
            i += 1;
        }
        proof {
            assert(names.skip(names.len() as int) =~= Seq::<Seq<u8>>::empty());
        }
    }
    let from_route = default_route_iface(route);
    if let Some(d) = from_route {
        let lo = lit_lo();
        if !bytes_eq(d.as_slice(), lo.as_slice()) {
            return Some(d);
        }
    }
    if ups.len() > 0 {
        let name = clone_bytes(&ups[0]);
        proof {
            assert(names[0] == ups@[0]@);
        }
        return Some(name);
    }
    None
}

proof fn lemma_first_match_none(pat: Seq<u8>, names: Seq<Seq<u8>>)
    requires
        forall|i: int| 0 <= i < names.len() ==> !pattern_matches(pat, #[trigger] names[i]),
    ensures
        first_match(pat, names) is None,
    decreases names.len(),
{
    if names.len() > 0 {
        assert(forall|i: int|
            0 <= i < names.drop_first().len() ==> #[trigger] names.drop_first()[i] == names[i + 1]);
        lemma_first_match_none(pat, names.drop_first());
    }
}

proof fn lemma_first_match_mem(pat: Seq<u8>, names: Seq<Seq<u8>>)
    requires
        first_match(pat, names) is Some,
    ensures
        names.contains(first_match(pat, names).unwrap()),
    decreases names.len(),
{
    if names.len() > 0 {
        if pattern_matches(pat, names[0]) {
            assert(names[0] == first_match(pat, names).unwrap());
        } else {
            lemma_first_match_mem(pat, names.drop_first());
            let v = first_match(pat, names.drop_first()).unwrap();
            let i = choose|i: int| 0 <= i < names.drop_first().len() && names.drop_first()[i] == v;
            assert(names[i + 1] == v);
        }
    }
}

proof fn lemma_up_names_no_lo(infos: Seq<IfaceInfo>)
    ensures
        forall|i: int| 0 <= i < up_names(infos).len() ==> #[trigger] up_names(infos)[i] != lo_text(),
    decreases infos.len(),
{
    if infos.len() > 0 {
        lemma_up_names_no_lo(infos.drop_last());
        let pre = up_names(infos.drop_last());
        let all = up_names(infos);
        assert forall|i: int| 0 <= i < all.len() implies #[trigger] all[i] != lo_text() by {
            if i < pre.len() {
                assert(all[i] == pre[i]);
            } else {
                assert(info_selectable(infos.last()));
                assert(all[i] == infos.last().name@);
            }
        }
    }
}

/// A pattern that matches no up interface falls back to the default-route
/// interface (unless that is the loopback interface), and when the routing
/// table names none, to the first up non-loopback interface.
pub proof fn lemma_pattern_fallback(pat: Seq<u8>, infos: Seq<IfaceInfo>, route: Seq<u8>)
    requires
        forall|i: int|
            0 <= i < up_names(infos).len() ==> !pattern_matches(pat, #[trigger] up_names(infos)[i]),
    ensures
        pick_spec(Some(pat), infos, route) == (if default_route_spec(route) is Some
            && default_route_spec(route) != Some(lo_text()) {
            default_route_spec(route)
        } else if up_names(infos).len() > 0 {
            Some(up_names(infos)[0])
        } else {
            None
        }),
{
    lemma_first_match_none(pat, up_names(infos));
}

/// The loopback interface is never selected, whatever its up or carrier
/// status says and whatever the routing table names as the default route.
pub proof fn lemma_loopback_never_selected(
    pat: Option<Seq<u8>>,
    infos: Seq<IfaceInfo>,
    route: Seq<u8>,
)
    ensures
        pick_spec(pat, infos, route) != Some(lo_text()),
{
    lemma_up_names_no_lo(infos);
    if pat is Some && first_match(pat.unwrap(), up_names(infos)) is Some {
        lemma_first_match_mem(pat.unwrap(), up_names(infos));
        let v = first_match(pat.unwrap(), up_names(infos)).unwrap();
        let i = choose|i: int|
            0 <= i < up_names(infos).len() && up_names(infos)[i] == v;
        assert(up_names(infos)[i] != lo_text());
    }
}

} // verus!
