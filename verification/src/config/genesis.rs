//! The genesis configuration: the record every node of a network must
//! share.  Its digest distinguishes networks; nodes refuse chains built
//! from another configuration.
//!
//! Reading the configuration, the public key and the public UCIV data from
//! disk is the caller's business; this module validates the plain values
//! and derives the configuration hash.

use vstd::prelude::*;

verus! {

use crate::crypto::ImageSet;
use crate::crypto::PublicKey;
use crate::encoding::enc_byte_lists;
use crate::encoding::enc_bytes;
use crate::encoding::enc_str;
use crate::encoding::enc_u64;
use crate::encoding::write_byte_lists;
use crate::encoding::write_bytes;
use crate::encoding::write_str;
use crate::encoding::write_u64;
use crate::hashing::sha1_hex;
use crate::hashing::sha1_hex_of;

/// The clique-specific configuration values.
#[derive(Debug, Clone, Copy, PartialEq, Eq, Structural)]
pub struct CliqueConfig {
    /// Seconds that must pass before a new block may be minted.
    pub block_period: u64,
    /// How many sealers after the leader may mint as co-leaders.
    pub signer_limit: usize,
}

/// The part of the configuration that is read from the genesis record:
/// version, clique values, and the sealers' socket addresses as text.
#[derive(Debug, PartialEq, Eq)]
pub struct GenesisData {
    pub version: String,
    pub clique: CliqueConfig,
    pub sealer: Vec<String>,
}

/// The full configuration a node runs with: the genesis record together
/// with the election's public key and the voters' public image sets.
#[derive(Debug, PartialEq, Eq)]
pub struct Genesis {
    pub version: String,
    pub clique: CliqueConfig,
    pub sealer: Vec<String>,
    pub public_key: PublicKey,
    pub public_uciv: Vec<ImageSet>,
}

/// The configuration broke a constraint: the record names no version, a
/// zero block period, or no sealer at all.  Fatal at startup.
#[derive(Debug, PartialEq, Eq, Clone, Copy)]
pub struct ConfigInvalid;

pub struct GenesisView {
    pub version: Seq<char>,
    pub block_period: u64,
    pub signer_limit: int,
    pub sealer: Seq<Seq<char>>,
    pub public_key: Seq<u8>,
    pub public_uciv: Seq<Seq<Seq<u8>>>,
}

impl View for Genesis {
    type V = GenesisView;

    open spec fn view(&self) -> GenesisView {
        GenesisView {
            version: self.version@,
            block_period: self.clique.block_period,
            signer_limit: self.clique.signer_limit as int,
            sealer: self.sealer.deep_view(),
            public_key: self.public_key@,
            public_uciv: self.public_uciv@.map_values(|s: ImageSet| s@),
        }
    }
}

impl GenesisView {
    /// The constraints a configuration must meet: a named version, a
    /// positive block period, at least one sealer.
    pub open spec fn valid(self) -> bool {
        &&& self.version.len() > 0
        &&& self.block_period >= 1
        &&& self.sealer.len() >= 1
    }
}

/// The canonical text of a row of strings.
pub open spec fn enc_str_run(l: Seq<Seq<char>>) -> Seq<char>
    decreases l.len(),
{
    if l.len() == 0 {
        Seq::empty()
    } else {
        enc_str(l[0]) + enc_str_run(l.subrange(1, l.len() as int))
    }
}

/// The canonical text of a row of image sets.
pub open spec fn enc_uciv_run(l: Seq<Seq<Seq<u8>>>) -> Seq<char>
    decreases l.len(),
{
    if l.len() == 0 {
        Seq::empty()
    } else {
        enc_byte_lists(l[0]) + enc_uciv_run(l.subrange(1, l.len() as int))
    }
}

/// The canonical text of the whole configuration: the text its hash is the
/// digest of.
pub open spec fn enc_genesis(g: GenesisView) -> Seq<char> {
    enc_str(g.version) + enc_u64(g.block_period as int) + enc_u64(g.signer_limit) + enc_u64(
        g.sealer.len() as int,
    ) + enc_str_run(g.sealer) + enc_bytes(g.public_key) + enc_u64(g.public_uciv.len() as int)
        + enc_uciv_run(g.public_uciv)
}

pub proof fn lemma_enc_str_run_snoc(l: Seq<Seq<char>>, x: Seq<char>)
    ensures
        enc_str_run(l.push(x)) == enc_str_run(l) + enc_str(x),
    decreases l.len(),
{
    if l.len() == 0 {
        assert(l.push(x).subrange(1, 1) =~= Seq::<Seq<char>>::empty());
        assert(enc_str_run(Seq::<Seq<char>>::empty()) == Seq::<char>::empty());
        assert(l =~= Seq::<Seq<char>>::empty());
        assert(enc_str_run(l.push(x)) == enc_str(x) + Seq::<char>::empty());
        assert(enc_str_run(l.push(x)) =~= enc_str_run(l) + enc_str(x));
    } else {
        let tail = l.subrange(1, l.len() as int);
        let all = l.push(x);
        assert(all[0] == l[0]);
        assert(all.subrange(1, all.len() as int) =~= tail.push(x));
        lemma_enc_str_run_snoc(tail, x);
        assert(enc_str_run(all) == enc_str(l[0]) + (enc_str_run(tail) + enc_str(x)));
        assert(enc_str(l[0]) + (enc_str_run(tail) + enc_str(x)) =~= (enc_str(l[0]) + enc_str_run(
            tail,
        )) + enc_str(x));
        assert(enc_str_run(l) == enc_str(l[0]) + enc_str_run(tail));
    }
}

pub proof fn lemma_enc_uciv_run_snoc(l: Seq<Seq<Seq<u8>>>, x: Seq<Seq<u8>>)
    ensures
        enc_uciv_run(l.push(x)) == enc_uciv_run(l) + enc_byte_lists(x),
    decreases l.len(),
{
    if l.len() == 0 {
        assert(l.push(x).subrange(1, 1) =~= Seq::<Seq<Seq<u8>>>::empty());
        assert(enc_uciv_run(Seq::<Seq<Seq<u8>>>::empty()) == Seq::<char>::empty());
        assert(l =~= Seq::<Seq<Seq<u8>>>::empty());
        assert(enc_uciv_run(l.push(x)) == enc_byte_lists(x) + Seq::<char>::empty());
        assert(enc_uciv_run(l.push(x)) =~= enc_uciv_run(l) + enc_byte_lists(x));
    } else {
        let tail = l.subrange(1, l.len() as int);
        let all = l.push(x);
        assert(all[0] == l[0]);
        assert(all.subrange(1, all.len() as int) =~= tail.push(x));
        lemma_enc_uciv_run_snoc(tail, x);
        assert(enc_uciv_run(all) == enc_byte_lists(l[0]) + (enc_uciv_run(tail) + enc_byte_lists(
            x,
        )));
        assert(enc_byte_lists(l[0]) + (enc_uciv_run(tail) + enc_byte_lists(x)) =~= (enc_byte_lists(
            l[0],
        ) + enc_uciv_run(tail)) + enc_byte_lists(x));
        assert(enc_uciv_run(l) == enc_byte_lists(l[0]) + enc_uciv_run(tail));
    }
}

impl Genesis {
    /// Assemble and validate a configuration from its parts: the parsed
    /// genesis record, the election's public key, and the public UCIV
    /// image sets.  Succeeds exactly when the record names a version, a
    /// positive block period and at least one sealer.
    pub fn new(data: GenesisData, public_key: PublicKey, public_uciv: Vec<ImageSet>) -> (r: Result<
        Genesis,
        ConfigInvalid,
    >)
        ensures
            match r {
                Result::Ok(g) => {
                    &&& g@.valid()
                    &&& g@.version == data.version@
                    &&& g@.block_period == data.clique.block_period
                    &&& g@.signer_limit == data.clique.signer_limit as int
                    &&& g@.sealer == data.sealer.deep_view()
                    &&& g@.public_key == public_key@
                    &&& g@.public_uciv == public_uciv@.map_values(|s: ImageSet| s@)
                },
                Result::Err(e) => !(data.version@.len() > 0 && data.clique.block_period >= 1
                    && data.sealer@.len() >= 1),
            },
    {
        if data.version.as_str().unicode_len() == 0 {
            return Err(ConfigInvalid);
        }
        if data.clique.block_period < 1 {
            return Err(ConfigInvalid);
        }
        if data.sealer.len() < 1 {
            return Err(ConfigInvalid);
        }
        proof {
            assert(data.sealer.deep_view().len() == data.sealer@.len());
        }
        Ok(
            Genesis {
                version: data.version,
                clique: data.clique,
                sealer: data.sealer,
                public_key,
                public_uciv,
            },
        )
    }

    /// The digest of the canonical text of this configuration: what
    /// distinguishes one network from another.
    pub fn configuration_hash(&self) -> (r: String)
        ensures
            r@ == sha1_hex_of(enc_genesis(self@)),
            r@.len() == 40,
    {
        let mut preimage = String::new();
        write_str(&mut preimage, self.version.as_str());
        write_u64(&mut preimage, self.clique.block_period);
        write_u64(&mut preimage, self.clique.signer_limit as u64);
        write_u64(&mut preimage, self.sealer.len() as u64);
        let ghost head = preimage@;
        let ghost sl = self.sealer.deep_view();
        proof {
            assert(sl.len() == self.sealer@.len());
        }
        let mut i: usize = 0;
        while i < self.sealer.len()
            invariant
                i <= self.sealer@.len(),
                sl == self.sealer.deep_view(),
                sl.len() == self.sealer@.len(),
                preimage@ == head + enc_str_run(sl.subrange(0, i as int)),
            decreases self.sealer@.len() - i,
        {
            write_str(&mut preimage, self.sealer[i].as_str());
            proof {
                assert(sl[i as int] == self.sealer@[i as int]@);
                assert(sl.subrange(0, i + 1 as int) =~= sl.subrange(0, i as int).push(
                    sl[i as int],
                ));
                lemma_enc_str_run_snoc(sl.subrange(0, i as int), sl[i as int]);
                assert(preimage@ =~= head + enc_str_run(sl.subrange(0, i + 1 as int)));
            }
            i = i + 1;
        }
        proof {
            assert(sl.subrange(0, sl.len() as int) =~= sl);
        }
        write_bytes(&mut preimage, &self.public_key.bytes);
        write_u64(&mut preimage, self.public_uciv.len() as u64);
        let ghost head2 = preimage@;
        let ghost ul = self.public_uciv@.map_values(|s: ImageSet| s@);
        proof {
            assert(ul.len() == self.public_uciv@.len());
        }
        let mut j: usize = 0;
        while j < self.public_uciv.len()
            invariant
                j <= self.public_uciv@.len(),
                ul == self.public_uciv@.map_values(|s: ImageSet| s@),
                ul.len() == self.public_uciv@.len(),
                preimage@ == head2 + enc_uciv_run(ul.subrange(0, j as int)),
            decreases self.public_uciv@.len() - j,
        {
            write_byte_lists(&mut preimage, &self.public_uciv[j].images);
            proof {
                assert(ul[j as int] == self.public_uciv@[j as int]@);
                assert(ul.subrange(0, j + 1 as int) =~= ul.subrange(0, j as int).push(
                    ul[j as int],
                ));
                lemma_enc_uciv_run_snoc(ul.subrange(0, j as int), ul[j as int]);
                assert(preimage@ =~= head2 + enc_uciv_run(ul.subrange(0, j + 1 as int)));
            }
            j = j + 1;
        }
        proof {
            assert(ul.subrange(0, ul.len() as int) =~= ul);
            assert(preimage@ =~= enc_genesis(self@));
        }
        sha1_hex(preimage.as_str())
    }
}

/// A fresh copy of a list of texts.
pub fn clone_strings(a: &Vec<String>) -> (r: Vec<String>)
    ensures
        r.deep_view() == a.deep_view(),
{
    let mut out: Vec<String> = Vec::new();
    let mut i: usize = 0;
    while i < a.len()
        invariant
            i <= a@.len(),
            out@.len() == i,
            a.deep_view().len() == a@.len(),
            out.deep_view() == a.deep_view().subrange(0, i as int),
        decreases a@.len() - i,
    {
        let ghost pre = out@;
        let ghost pre_deep = out.deep_view();
        let s2 = a[i].clone();
        proof {
            assert(s2@ == a@[i as int]@);
            assert(s2.deep_view() == a.deep_view()[i as int]);
        }
        out.push(s2);
        proof {
            assert(out@ == pre.push(s2));
            assert forall|k: int|
                0 <= k <= i implies out.deep_view()[k] == a.deep_view()[k] by {
                assert(out.deep_view()[k] == out@[k].deep_view());
                if k < i {
                    assert(out@[k] == pre[k]);
                    assert(pre_deep[k] == pre[k].deep_view());
                    assert(pre_deep[k] == a.deep_view().subrange(0, i as int)[k]);
                } else {
                    assert(out@[k] == s2);
                }
            }
            assert(out.deep_view() =~= a.deep_view().subrange(0, i + 1 as int));
        }
        i = i + 1;
    }
    proof {
        assert(a.deep_view().subrange(0, a.deep_view().len() as int) =~= a.deep_view());
    }
    out
}

impl Clone for Genesis {
    fn clone(&self) -> (r: Self)
        ensures
            r@ == self@,
    {
        let mut uciv: Vec<ImageSet> = Vec::new();
        let mut i: usize = 0;
        while i < self.public_uciv.len()
            invariant
                i <= self.public_uciv@.len(),
                uciv@.len() == i,
                forall|k: int| 0 <= k < i ==> uciv@[k]@ == self.public_uciv@[k]@,
            decreases self.public_uciv@.len() - i,
        {
            let s2 = self.public_uciv[i].clone();
            uciv.push(s2);
            i = i + 1;
        }
        let r = Genesis {
            version: self.version.clone(),
            clique: self.clique,
            sealer: clone_strings(&self.sealer),
            public_key: self.public_key.clone(),
            public_uciv: uciv,
        };
        proof {
            assert(r@.public_uciv =~= self@.public_uciv);
            assert(r@.sealer == self@.sealer);
            assert(r@ =~= self@);
        }
        r
    }
}

} // verus!
