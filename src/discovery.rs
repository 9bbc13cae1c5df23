use vstd::prelude::*;

verus! {

/// The broadcast that asks peers to make themselves known: `SPL_DISCOVER`.
pub open spec fn request_message() -> Seq<u8> {
    seq![83u8, 80u8, 76u8, 95u8, 68u8, 73u8, 83u8, 67u8, 79u8, 86u8, 69u8, 82u8]
}

/// The answer of a peer that listens: `SPL_HERE`.
pub open spec fn reply_message() -> Seq<u8> {
    seq![83u8, 80u8, 76u8, 95u8, 72u8, 69u8, 82u8, 69u8]
}

/// Lexicographic order on byte strings, which is the order of address
/// strings.
pub open spec fn lex_lt(a: Seq<u8>, b: Seq<u8>) -> bool
    decreases a.len(),
{
    if a.len() == 0 {
        b.len() > 0
    } else if b.len() == 0 {
        false
    } else if a[0] != b[0] {
        a[0] < b[0]
    } else {
        lex_lt(a.drop_first(), b.drop_first())
    }
}

/// Strictly ascending, hence without repeats.
pub open spec fn strictly_sorted(s: Seq<Seq<u8>>) -> bool {
    forall|i: int, j: int| 0 <= i < j < s.len() ==> lex_lt(#[trigger] s[i], #[trigger] s[j])
}

proof fn lemma_lex_total(a: Seq<u8>, b: Seq<u8>)
    ensures
        a != b ==> lex_lt(a, b) || lex_lt(b, a),
        !(lex_lt(a, b) && lex_lt(b, a)),
        !lex_lt(a, a),
    decreases a.len(),
{
    if a.len() > 0 && b.len() > 0 {
        lemma_lex_total(a.drop_first(), b.drop_first());
        lemma_lex_total(a.drop_first(), a.drop_first());
        if a[0] == b[0] && a.drop_first() == b.drop_first() {
            assert(a =~= seq![a[0]] + a.drop_first());
            assert(b =~= seq![b[0]] + b.drop_first());
        }
    } else if a.len() > 0 {
        lemma_lex_total(a.drop_first(), a.drop_first());
    } else if b.len() == 0 {
        assert(a =~= b);
    }
}

proof fn lemma_lex_trans(a: Seq<u8>, b: Seq<u8>, c: Seq<u8>)
    requires
        lex_lt(a, b),
        lex_lt(b, c),
    ensures
        lex_lt(a, c),
    decreases a.len(),
{
    if a.len() > 0 && b.len() > 0 && c.len() > 0 && a[0] == b[0] && b[0] == c[0] {
        lemma_lex_trans(a.drop_first(), b.drop_first(), c.drop_first());
    }
}

/// Compares two byte strings in lexicographic order.
pub fn lex_less(a: &[u8], b: &[u8]) -> (r: bool)
    ensures
        r == lex_lt(a@, b@),
{
    let mut i: usize = 0;
    assert(a@.skip(0) =~= a@ && b@.skip(0) =~= b@);
    while i < a.len() && i < b.len()
        invariant
            i <= a@.len(),
            i <= b@.len(),
            lex_lt(a@, b@) == lex_lt(a@.skip(i as int), b@.skip(i as int)),
        decreases a@.len() - i,
    {
        if a[i] != b[i] {
            return a[i] < b[i];
        }
        assert(a@.skip(i as int).drop_first() =~= a@.skip(i + 1));
        assert(b@.skip(i as int).drop_first() =~= b@.skip(i + 1));
        i = i + 1;
    }
    i < b.len()
}

/// Whether two byte strings are equal.
pub fn bytes_equal(a: &[u8], b: &[u8]) -> (r: bool)
    ensures
        r == (a@ == b@),
{
    if a.len() != b.len() {
        return false;
    }
    let mut i: usize = 0;
    while i < a.len()
        invariant
            a@.len() == b@.len(),
            i <= a@.len(),
            a@.subrange(0, i as int) == b@.subrange(0, i as int),
        decreases a@.len() - i,
    {
        if a[i] != b[i] {
            return false;
        }
        i = i + 1;
        assert(a@.subrange(0, i as int) =~= a@.subrange(0, i - 1) + seq![a@[i - 1]]);
        assert(b@.subrange(0, i as int) =~= b@.subrange(0, i - 1) + seq![b@[i - 1]]);
    }
    assert(a@ =~= a@.subrange(0, i as int));
    assert(b@ =~= b@.subrange(0, i as int));
    true
}

/// The bytes of the discovery broadcast.
pub fn discovery_request() -> (r: Vec<u8>)
    ensures
        r@ == request_message(),
{
    let r: Vec<u8> = vec![83u8, 80u8, 76u8, 95u8, 68u8, 73u8, 83u8, 67u8, 79u8, 86u8, 69u8, 82u8];
    assert(r@ =~= request_message());
    r
}

/// The bytes of the discovery reply.
pub fn discovery_reply() -> (r: Vec<u8>)
    ensures
        r@ == reply_message(),
{
    let r: Vec<u8> = vec![83u8, 80u8, 76u8, 95u8, 72u8, 69u8, 82u8, 69u8];
    assert(r@ =~= reply_message());
    r
}

/// Whether a datagram is the discovery broadcast.
pub fn is_discovery_request(msg: &[u8]) -> (r: bool)
    ensures
        r == (msg@ == request_message()),
{
    let m = discovery_request();
    bytes_equal(msg, m.as_slice())
}

/// Whether a datagram is a peer's reply.
pub fn is_discovery_reply(msg: &[u8]) -> (r: bool)
    ensures
        r == (msg@ == reply_message()),
{
    let m = discovery_reply();
    bytes_equal(msg, m.as_slice())
}

/// The peers found so far: distinct addresses in ascending order.
pub struct DeviceList {
    addrs: Vec<Vec<u8>>,
}

impl View for DeviceList {
    type V = Seq<Seq<u8>>;

    closed spec fn view(&self) -> Seq<Seq<u8>> {
        self.addrs@.map_values(|a: Vec<u8>| a@)
    }
}

impl DeviceList {
    /// The addresses are held in strictly ascending order.
    pub open spec fn wf(&self) -> bool {
        strictly_sorted(self@)
    }

    /// No peer found yet.
    pub fn new() -> (r: DeviceList)
        ensures
            r.wf(),
            r@ == Seq::<Seq<u8>>::empty(),
    {
        let r = DeviceList { addrs: Vec::new() };
        assert(r@ =~= Seq::<Seq<u8>>::empty());
        r
    }

    /// Takes one datagram from `addr`: a reply adds the address unless it is
    /// already known; anything else changes nothing.
    pub fn record_reply(&mut self, msg: &[u8], addr: &[u8])
        requires
            old(self).wf(),
        ensures
            final(self).wf(),
            final(self)@.to_set() == if msg@ == reply_message() {
                old(self)@.to_set().insert(addr@)
            } else {
                old(self)@.to_set()
            },
    {
        if is_discovery_reply(msg) {
            self.insert(addr);
        }
    }

    fn insert(&mut self, addr: &[u8])
        requires
            old(self).wf(),
        ensures
            final(self).wf(),
            final(self)@.to_set() == old(self)@.to_set().insert(addr@),
    {
        let ghost old_v = self@;
        let mut p: usize = 0;
        while p < self.addrs.len() && lex_less(self.addrs[p].as_slice(), addr)
            invariant
                self@ == old_v,
                p <= self@.len(),
                forall|i: int| 0 <= i < p ==> lex_lt(#[trigger] old_v[i], addr@),
            decreases self@.len() - p,
        {
            p = p + 1;
        }
        if p < self.addrs.len() && bytes_equal(self.addrs[p].as_slice(), addr) {
            assert(old_v.to_set().insert(addr@) =~= old_v.to_set()) by {
                assert(old_v[p as int] == addr@);
            }
            return;
        }
        let copy = crate::bytes::copy_range(addr, 0, addr.len());
        assert(copy@ =~= addr@);
        self.addrs.insert(p, copy);
        let ghost nv = self@;
        assert(nv =~= old_v.insert(p as int, addr@));
        assert forall|i: int, j: int| 0 <= i < j < nv.len() implies lex_lt(
            #[trigger] nv[i],
            #[trigger] nv[j],
        ) by {
            if p < old_v.len() {
                lemma_lex_total(old_v[p as int], addr@);
            }
            if i < p && j == p {
            } else if i == p && j > p {
                if j > p + 1 {
                    lemma_lex_trans(addr@, old_v[p as int], old_v[j - 1]);
                }
            } else if i < p && j > p {
                assert(lex_lt(old_v[i], old_v[j - 1]));
            } else if i > p {
                assert(lex_lt(old_v[i - 1], old_v[j - 1]));
            }
        }
        assert(nv.to_set() =~= old_v.to_set().insert(addr@)) by {
            assert forall|x: Seq<u8>| nv.to_set().contains(x) implies old_v.to_set().insert(
                addr@,
            ).contains(x) by {
                let k = choose|k: int| 0 <= k < nv.len() && nv[k] == x;
                if k < p {
                    assert(old_v[k] == x);
                } else if k > p {
                    assert(old_v[k - 1] == x);
                }
            }
            assert forall|x: Seq<u8>| old_v.to_set().insert(addr@).contains(x) implies nv.to_set().contains(
                x,
            ) by {
                if x == addr@ {
                    assert(nv[p as int] == x);
                } else {
                    let k = choose|k: int| 0 <= k < old_v.len() && old_v[k] == x;
                    if k < p {
                        assert(nv[k] == x);
                    } else {
                        assert(nv[k + 1] == x);
                    }
                }
            }
        }
    }

    /// The addresses found, in strictly ascending order.
    pub fn addresses(&self) -> (r: Vec<Vec<u8>>)
        requires
            self.wf(),
        ensures
            r@.map_values(|a: Vec<u8>| a@) == self@,
            strictly_sorted(r@.map_values(|a: Vec<u8>| a@)),
    {
        let mut r: Vec<Vec<u8>> = Vec::new();
        let mut i: usize = 0;
        while i < self.addrs.len()
            invariant
                i <= self@.len(),
                self@.len() == self.addrs@.len(),
                r@.len() == i,
                forall|k: int| 0 <= k < i ==> (#[trigger] r@[k])@ == self@[k],
            decreases self@.len() - i,
        {
            let a = crate::bytes::copy_range(self.addrs[i].as_slice(), 0, self.addrs[i].len());
            r.push(a);
            assert(self@[i as int] == self.addrs@[i as int]@);
            i = i + 1;
        }
        assert(r@.map_values(|a: Vec<u8>| a@) =~= self@);
        r
    }
}

} // verus!
