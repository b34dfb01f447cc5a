//! A remote quilt's input-port, and a registry of known ports.
//!
//! A port is identified by its url (the remote quilt) and its signature (the
//! cell id or input-port name). Its value is cached locally in a buffer.

use vstd::prelude::*;
use crate::block::{BlockRef, Buffer, Encoding, PortBlock};
use crate::store::Store;

verus! {

/// A port: where it lives, what it is called there, and its cached value.
#[derive(Debug, Clone)]
pub struct Port {
    pub url: String,
    pub sig: String,
    pub buffer: Buffer,
}

impl Port {
    pub fn new(url: &str, sig: &str, initial: i64) -> (p: Self)
        ensures
            p.url@ == url@,
            p.sig@ == sig@,
            p.buffer@ == initial,
    {
        Port { url: String::from_str(url), sig: String::from_str(sig), buffer: Buffer::new(initial) }
    }

    /// A block over a copy of the port's value, addressed with raw encoding.
    pub fn as_block(&self) -> (b: PortBlock)
        ensures
            b.block_ref == (BlockRef::Port { url: self.url, sig: self.sig, encoding: Encoding::Raw }),
            b.buffer@ == self.buffer@,
    {
        PortBlock {
            block_ref: BlockRef::Port {
                url: self.url.clone(),
                sig: self.sig.clone(),
                encoding: Encoding::Raw,
            },
            buffer: Buffer::new(self.buffer.get()),
        }
    }
}

/// The registry key of a port: the pair of its url and signature.
pub open spec fn registry_key(url: Seq<char>, sig: Seq<char>) -> (Seq<char>, Seq<char>) {
    (url, sig)
}

fn make_key(url: &str, sig: &str) -> (k: (String, String))
    ensures
        k@ == registry_key(url@, sig@),
{
    (String::from_str(url), String::from_str(sig))
}

/// A registry of known remote ports, keyed by url and signature.
pub struct PortRegistry {
    ports: Store<(String, String), Port>,
}

/// Every port of the table sits under its own url and signature.
pub open spec fn ports_keyed(ports: Map<(Seq<char>, Seq<char>), Port>) -> bool {
    forall|k: (Seq<char>, Seq<char>)|
        #[trigger] ports.contains_key(k) ==> ports[k].url@ == k.0 && ports[k].sig@ == k.1
}

impl View for PortRegistry {
    type V = Map<(Seq<char>, Seq<char>), Port>;

    closed spec fn view(&self) -> Map<(Seq<char>, Seq<char>), Port> {
        self.ports@
    }
}

impl PortRegistry {
    #[verifier::type_invariant]
    spec fn keyed(self) -> bool {
        ports_keyed(self.ports@)
    }

    pub fn new() -> (r: Self)
        ensures
            r@ == Map::<(Seq<char>, Seq<char>), Port>::empty(),
    {
        PortRegistry { ports: Store::new() }
    }

    /// The number of registered ports.
    pub fn len(&self) -> (n: usize)
        ensures
            n == self@.len(),
    {
        self.ports.len()
    }

    /// Records a port under its url and signature, replacing any port with
    /// the same pair.
    pub fn register(&mut self, port: Port)
        ensures
            final(self)@ == old(self)@.insert(registry_key(port.url@, port.sig@), port),
    {
        proof {
            use_type_invariant(&*self);
        }
        let key = make_key(port.url.as_str(), port.sig.as_str());
        let mut ports: Store<(String, String), Port> = Store::new();
        std::mem::swap(&mut ports, &mut self.ports);
        ports.insert(key, port);
        self.ports = ports;
    }

    /// The port registered under `url` and `sig`; a port found carries that
    /// url and signature.
    pub fn get(&self, url: &str, sig: &str) -> (r: Option<&Port>)
        ensures
            r is Some <==> self@.contains_key(registry_key(url@, sig@)),
            r matches Some(p) ==> *p == self@[registry_key(url@, sig@)],
            r matches Some(p) ==> p.url@ == url@ && p.sig@ == sig@,
    {
        proof {
            use_type_invariant(self);
        }
        let key = make_key(url, sig);
        let r = self.ports.get(&key);
        proof {
            if r is Some {
                assert(self.ports@.contains_key(registry_key(url@, sig@)));
            }
        }
        r
    }
}

/// Law: a registered port is found again under its url and signature, only
/// under that pair, and registering leaves every other pair as it was.
pub proof fn lemma_register_then_get(
    ports: Map<(Seq<char>, Seq<char>), Port>,
    port: Port,
    url: Seq<char>,
    sig: Seq<char>,
)
    ensures
        ports.insert(registry_key(port.url@, port.sig@), port).contains_key(
            registry_key(port.url@, port.sig@),
        ),
        ports.insert(registry_key(port.url@, port.sig@), port)[registry_key(port.url@, port.sig@)]
            == port,
        (url != port.url@ || sig != port.sig@) ==> ports.insert(
            registry_key(port.url@, port.sig@),
            port,
        ).get(registry_key(url, sig)) == ports.get(registry_key(url, sig)),
{
}

} // verus!
