//! Injection strategies: the closed set of ways a mod's files are
//! materialized into the target installation. One strategy exists: a
//! copy into the language-scoped localization folder.
use vstd::prelude::*;

use crate::codec::lower_bytes;
use crate::codec::to_lower;
use crate::codec::bytes_eq;

verus! {

/// The injection techniques used to install mods. Only the
/// localization-folder injection exists today; the set is closed and
/// matched exhaustively so a new technique extends it explicitly.
#[derive(Debug, Clone, Copy, PartialEq, Eq, Structural)]
pub enum InjectionType {
    /// Injection through the game's localization folder.
    Localization,
}

/// The spelling that names the localization injection, lowercased.
pub open spec fn localization_name() -> Seq<u8> {
    seq![108u8, 111u8, 99u8, 97u8, 108u8, 105u8, 122u8, 97u8, 116u8, 105u8, 111u8, 110u8]
}

impl InjectionType {
    /// Parses an injection-kind name, ignoring ASCII case; `None` for
    /// an unknown kind.
    pub fn parse(s: &Vec<u8>) -> (r: Option<InjectionType>)
        ensures
            r == if lower_bytes(s@) == localization_name() {
                Some(InjectionType::Localization)
            } else {
                None::<InjectionType>
            },
    {
        let lowered = to_lower(s);
        let mut name: Vec<u8> = Vec::new();
        name.push(108);
        name.push(111);
        name.push(99);
        name.push(97);
        name.push(108);
        name.push(105);
        name.push(122);
        name.push(97);
        name.push(116);
        name.push(105);
        name.push(111);
        name.push(110);
        proof {
            assert(name@ =~= localization_name());
        }
        if bytes_eq(&lowered, &name) {
            Some(InjectionType::Localization)
        } else {
            None
        }
    }
}

impl InjectionType {
    /// The destination of one of the mod's paths under this strategy,
    /// dispatched exhaustively over the closed set of strategies.
    pub fn destination_path(&self, root: &Vec<u8>, language: &Vec<u8>, rel: &Vec<u8>) -> (r: Vec<
        u8,
    >)
        ensures
            r@ == match *self {
                InjectionType::Localization => localization_dest(root@, language@, rel@),
            },
    {
        match self {
            InjectionType::Localization => localization_dest_path(root, language, rel),
        }
    }
}

/// The destination of one mod path under the localization strategy:
/// `<root>/localization/<language>/<relative path>`.
pub open spec fn localization_dest(root: Seq<u8>, language: Seq<u8>, rel: Seq<u8>) -> Seq<u8> {
    root + seq![47u8] + seq![108u8, 111u8, 99u8, 97u8, 108u8, 105u8, 122u8, 97u8, 116u8, 105u8, 111u8, 110u8]
        + seq![47u8] + language + seq![47u8] + rel
}

/// Builds the destination path of one mod path under the localization
/// strategy.
pub fn localization_dest_path(root: &Vec<u8>, language: &Vec<u8>, rel: &Vec<u8>) -> (r: Vec<u8>)
    ensures
        r@ == localization_dest(root@, language@, rel@),
{
    let mut out: Vec<u8> = Vec::new();
    out.extend_from_slice(root.as_slice());
    out.push(47);
    out.push(108);
    out.push(111);
    out.push(99);
    out.push(97);
    out.push(108);
    out.push(105);
    out.push(122);
    out.push(97);
    out.push(116);
    out.push(105);
    out.push(111);
    out.push(110);
    out.push(47);
    out.extend_from_slice(language.as_slice());
    out.push(47);
    out.extend_from_slice(rel.as_slice());
    proof {
        assert(out@ =~= localization_dest(root@, language@, rel@));
    }
    out
}

} // verus!
