use crate::contract_class::{
    table_of, ClassView, ContractAddressError, ContractEntryPoint, EntryPointType,
    EntryPointView, SierraContractClass, entry_points_view,
};
use crate::felt::{
    all_canonical, be_value, felt_from_be_slice, felt_from_usize, felt_values, field_prime,
    fits_felt, lemma_be_value_bound, lemma_felt_values_push, poseidon_hash_of, poseidon_many,
    pow256,
};
use cairo_lang_starknet::contract::starknet_keccak;
use vstd::prelude::*;
use vstd::string::StringSliceAdditionalSpecFns;
use vstd::utf8::encode_utf8;

verus! {

/// The ASCII bytes of the class-version tag `CONTRACT_CLASS_V0.1.0`, the first
/// input of every class hash.
pub open spec fn class_version_tag() -> Seq<u8> {
    seq![67u8, 79, 78, 84, 82, 65, 67, 84, 95, 67, 76, 65, 83, 83, 95, 86, 48, 46, 49, 46, 48]
}

/// The Starknet keccak digest of a byte string, as big-endian bytes.
pub uninterp spec fn starknet_keccak_of(data: Seq<u8>) -> Seq<u8>;

/// 2^250: every Starknet keccak digest lies below it.
pub open spec fn two_pow_250() -> nat {
    0x0400000000000000nat * pow256(24)
}

/// Relies on cairo_lang_starknet's `starknet_keccak`: the Keccak-256 digest of
/// the bytes with all but its low 250 bits cleared, as a `BigUint`, whose
/// `to_bytes_be` gives at most 32 big-endian bytes.
#[verifier::external_body]
fn starknet_keccak_bytes(text: &str) -> (r: Vec<u8>)
    ensures
        r@ == starknet_keccak_of(text.spec_bytes()),
        r@.len() <= 32,
        be_value(r@) < two_pow_250(),
{
    starknet_keccak(text.as_bytes()).to_bytes_be()
}

/// The digest of an ABI text.
pub open spec fn abi_digest(abi: Seq<char>) -> Seq<u8> {
    starknet_keccak_of(encode_utf8(abi))
}

/// The function index of the first entry, in table order, that lies past the
/// end of a program of `len` words.
pub open spec fn first_invalid_offset(eps: Seq<EntryPointView>, len: nat) -> Option<usize>
    decreases eps.len(),
{
    if eps.len() == 0 {
        None
    } else if eps[0].1 > len {
        Some(eps[0].1)
    } else {
        first_invalid_offset(eps.drop_first(), len)
    }
}

/// Every entry point of a class, in the order the hash visits them:
/// external, then L1 handlers, then constructors.
pub open spec fn all_entry_points(c: ClassView) -> Seq<EntryPointView> {
    c.external + c.l1_handler + c.constructor
}

/// Every selector is a field element.
pub open spec fn selectors_fit(eps: Seq<EntryPointView>) -> bool {
    forall|i: int| 0 <= i < eps.len() ==> fits_felt(#[trigger] eps[i].0)
}

/// Every program word is a field element.
pub open spec fn program_fits(c: ClassView) -> bool {
    forall|i: int| 0 <= i < c.program.len() ==> fits_felt(#[trigger] c.program[i])
}

/// The values of the program's words.
pub open spec fn program_values(program: Seq<Seq<u8>>) -> Seq<nat> {
    program.map_values(|w: Seq<u8>| be_value(w))
}

/// The flattened (selector, function index) pairs of a table, in order.
pub open spec fn entry_point_felts(eps: Seq<EntryPointView>) -> Seq<nat>
    decreases eps.len(),
{
    if eps.len() == 0 {
        seq![]
    } else {
        entry_point_felts(eps.drop_last()) + seq![be_value(eps.last().0), eps.last().1 as nat]
    }
}

/// The hash of one table of entry points.
pub open spec fn entry_points_hash(eps: Seq<EntryPointView>) -> nat {
    poseidon_hash_of(entry_point_felts(eps))
}

/// The class hash of a class whose values all fit the field and that has an ABI.
pub open spec fn class_hash_of(c: ClassView) -> nat {
    poseidon_hash_of(
        seq![
            be_value(class_version_tag()),
            entry_points_hash(c.external),
            entry_points_hash(c.l1_handler),
            entry_points_hash(c.constructor),
            be_value(abi_digest(c.abi.unwrap())),
            poseidon_hash_of(program_values(c.program)),
        ],
    )
}

/// The kinds of failure of the class hash, without their text.
pub enum HashFailure {
    Cast,
    MissingAbi,
    InvalidOffset(usize),
}

pub open spec fn failure_of(e: ContractAddressError) -> HashFailure {
    match e {
        ContractAddressError::Cast(..) => HashFailure::Cast,
        ContractAddressError::MissingAbi => HashFailure::MissingAbi,
        ContractAddressError::InvalidOffset(k) => HashFailure::InvalidOffset(k),
    }
}

/// What hashing a class gives: offsets are checked before anything is hashed,
/// then selectors, the ABI and the program are turned into field elements.
pub open spec fn class_hash_outcome(c: ClassView) -> Result<nat, HashFailure> {
    match first_invalid_offset(all_entry_points(c), c.program.len()) {
        Some(k) => Err(HashFailure::InvalidOffset(k)),
        None => {
            if !selectors_fit(all_entry_points(c)) {
                Err(HashFailure::Cast)
            } else {
                match c.abi {
                    None => Err(HashFailure::MissingAbi),
                    Some(_) => {
                        if !program_fits(c) {
                            Err(HashFailure::Cast)
                        } else {
                            Ok(class_hash_of(c))
                        }
                    },
                }
            }
        },
    }
}

proof fn lemma_first_invalid_offset_append(a: Seq<EntryPointView>, b: Seq<EntryPointView>, len: nat)
    ensures
        first_invalid_offset(a + b, len) == match first_invalid_offset(a, len) {
            Some(k) => Some(k),
            None => first_invalid_offset(b, len),
        },
    decreases a.len(),
{
    if a.len() == 0 {
        assert(a + b =~= b);
    } else {
        assert((a + b).drop_first() =~= a.drop_first() + b);
        lemma_first_invalid_offset_append(a.drop_first(), b, len);
    }
}

proof fn lemma_field_constants()
    ensures
        pow256(8) == 0x1_0000_0000_0000_0000,
        pow256(8) < field_prime(),
        pow256(21) < field_prime(),
        two_pow_250() < field_prime(),
{
    reveal_with_fuel(pow256, 25);
}

fn class_version_tag_bytes() -> (r: Vec<u8>)
    ensures
        r@ == class_version_tag(),
{
    let r = vec![67u8, 79, 78, 84, 82, 65, 67, 84, 95, 67, 76, 65, 83, 83, 95, 86, 48, 46, 49, 46, 48];
    assert(r@ =~= class_version_tag());
    r
}

fn cast_error(from: &str) -> (r: ContractAddressError)
    ensures
        r matches ContractAddressError::Cast(..),
{
    ContractAddressError::Cast(from.to_string(), "FieldElement".to_string())
}

fn entry_points_of_type<'a>(contract_class: &'a SierraContractClass, entry_point_type: &EntryPointType) -> (r: &'a Vec<ContractEntryPoint>)
    ensures
        entry_points_view(r@) == table_of(contract_class@, *entry_point_type),
{
    match entry_point_type {
        EntryPointType::Constructor => &contract_class.entry_points_by_type.constructor,
        EntryPointType::External => &contract_class.entry_points_by_type.external,
        EntryPointType::L1Handler => &contract_class.entry_points_by_type.l1_handler,
    }
}

/// The entries of one kind, once every function index is checked to lie
/// within the program.
fn get_contract_entry_points<'a>(contract_class: &'a SierraContractClass, entry_point_type: &EntryPointType) -> (r: Result<&'a Vec<ContractEntryPoint>, ContractAddressError>)
    ensures
        match r {
            Ok(eps) => entry_points_view(eps@) == table_of(contract_class@, *entry_point_type)
                && first_invalid_offset(table_of(contract_class@, *entry_point_type), contract_class@.program.len()) is None,
            Err(e) => first_invalid_offset(table_of(contract_class@, *entry_point_type), contract_class@.program.len())
                == Some(e->InvalidOffset_0) && e is InvalidOffset,
        },
{
    let program_length = contract_class.sierra_program.len();
    let entry_points = entry_points_of_type(contract_class, entry_point_type);
    let ghost ev = entry_points_view(entry_points@);
    let ghost len = contract_class@.program.len();
    assert(len == program_length);
    assert(ev.subrange(0, ev.len() as int) =~= ev);
    let mut i: usize = 0;
    while i < entry_points.len()
        invariant
            0 <= i <= entry_points.len(),
            ev == entry_points_view(entry_points@),
            ev == table_of(contract_class@, *entry_point_type),
            ev.len() == entry_points@.len(),
            len == program_length,
            len == contract_class@.program.len(),
            first_invalid_offset(ev, len) == first_invalid_offset(ev.subrange(i as int, ev.len() as int), len),
        decreases entry_points.len() - i,
    {
        let ghost rest = ev.subrange(i as int, ev.len() as int);
        assert(rest.drop_first() =~= ev.subrange(i + 1, ev.len() as int));
        assert(rest[0] == ev[i as int]);
        assert(ev[i as int].1 == entry_points@[i as int].function_idx);
        if entry_points[i].function_idx > program_length {
            assert(first_invalid_offset(rest, len) == Some(rest[0].1));
            return Err(ContractAddressError::InvalidOffset(entry_points[i].function_idx));
        }
        i = i + 1;
    }
    assert(ev.subrange(i as int, ev.len() as int).len() == 0);
    Ok(entry_points)
}

proof fn lemma_entry_point_felts_step(ev: Seq<EntryPointView>, i: int)
    requires
        0 <= i < ev.len(),
    ensures
        entry_point_felts(ev.subrange(0, i + 1)) == entry_point_felts(ev.subrange(0, i))
            + seq![be_value(ev[i].0), ev[i].1 as nat],
{
    assert(ev.subrange(0, i + 1).drop_last() =~= ev.subrange(0, i));
}

/// The hash of the entries of one kind: the Poseidon hash of their
/// (selector, function index) pairs, flattened in table order.
fn get_contract_entry_points_hashed(contract_class: &SierraContractClass, entry_point_type: &EntryPointType) -> (r: Result<[u8; 32], ContractAddressError>)
    ensures
        ({
            let t = table_of(contract_class@, *entry_point_type);
            let bad = first_invalid_offset(t, contract_class@.program.len());
            match r {
                Ok(h) => bad is None && selectors_fit(t) && be_value(h@) == entry_points_hash(t)
                    && be_value(h@) < field_prime(),
                Err(e) => match e {
                    ContractAddressError::InvalidOffset(k) => bad == Some(k),
                    ContractAddressError::Cast(..) => bad is None && !selectors_fit(t),
                    ContractAddressError::MissingAbi => false,
                },
            }
        }),
{
    let contract_entry_points = match get_contract_entry_points(contract_class, entry_point_type) {
        Ok(eps) => eps,
        Err(e) => return Err(e),
    };
    let ghost ev = entry_points_view(contract_entry_points@);
    let mut felts: Vec<[u8; 32]> = Vec::new();
    let mut i: usize = 0;
    proof {
        lemma_field_constants();
        assert(ev.subrange(0, 0) =~= Seq::<EntryPointView>::empty());
        assert(felt_values(felts@) =~= Seq::<nat>::empty());
    }
    while i < contract_entry_points.len()
        invariant
            0 <= i <= contract_entry_points.len(),
            ev == entry_points_view(contract_entry_points@),
            ev == table_of(contract_class@, *entry_point_type),
            first_invalid_offset(ev, contract_class@.program.len()) is None,
            ev.len() == contract_entry_points@.len(),
            felt_values(felts@) == entry_point_felts(ev.subrange(0, i as int)),
            all_canonical(felts@),
            forall|j: int| 0 <= j < i ==> fits_felt(#[trigger] ev[j].0),
            pow256(8) == 0x1_0000_0000_0000_0000,
            pow256(8) < field_prime(),
        decreases contract_entry_points.len() - i,
    {
        let entry_point = &contract_entry_points[i];
        assert(ev[i as int] == (entry_point.selector@, entry_point.function_idx));
        let selector = match felt_from_be_slice(entry_point.selector.as_slice()) {
            Some(f) => f,
            None => {
                assert(!fits_felt(ev[i as int].0));
                return Err(cast_error("String"));
            },
        };
        let function_idx = felt_from_usize(entry_point.function_idx);
        proof {
            lemma_felt_values_push(felts@, selector);
            lemma_felt_values_push(felts@.push(selector), function_idx);
            lemma_entry_point_felts_step(ev, i as int);
            assert(entry_point.function_idx as nat <= 0xffff_ffff_ffff_ffff);
        }
        let ghost before = felts@;
        felts.push(selector);
        felts.push(function_idx);
        proof {
            assert(felts@ == before.push(selector).push(function_idx));
            assert forall|j: int| 0 <= j < felts@.len() implies be_value(#[trigger] felts@[j]@) < field_prime() by {
                if j < before.len() {
                    assert(felts@[j] == before[j]);
                }
            }
            assert(felt_values(felts@) =~= entry_point_felts(ev.subrange(0, i + 1)));
        }
        i = i + 1;
    }
    assert(ev.subrange(0, i as int) =~= ev);
    Ok(poseidon_many(&felts))
}

proof fn lemma_selectors_fit_concat(a: Seq<EntryPointView>, b: Seq<EntryPointView>, c: Seq<EntryPointView>)
    ensures
        selectors_fit(a + b + c) <==> (selectors_fit(a) && selectors_fit(b) && selectors_fit(c)),
{
    let s = a + b + c;
    if selectors_fit(a) && selectors_fit(b) && selectors_fit(c) {
        assert forall|i: int| 0 <= i < s.len() implies fits_felt(#[trigger] s[i].0) by {
            if i < a.len() {
                assert(s[i] == a[i]);
            } else if i < a.len() + b.len() {
                assert(s[i] == b[i - a.len()]);
            } else {
                assert(s[i] == c[i - a.len() - b.len()]);
            }
        }
    }
    if selectors_fit(s) {
        assert forall|i: int| 0 <= i < a.len() implies fits_felt(#[trigger] a[i].0) by {
            assert(s[i] == a[i]);
        }
        assert forall|i: int| 0 <= i < b.len() implies fits_felt(#[trigger] b[i].0) by {
            assert(s[i + a.len()] == b[i]);
        }
        assert forall|i: int| 0 <= i < c.len() implies fits_felt(#[trigger] c[i].0) by {
            assert(s[i + a.len() + b.len()] == c[i]);
        }
    }
}

/// Checks the function index of every entry point, of every kind in hashing
/// order, and reports the first that lies past the end of the program.
fn check_entry_point_offsets(contract_class: &SierraContractClass) -> (r: Result<(), ContractAddressError>)
    ensures
        match r {
            Ok(_) => first_invalid_offset(all_entry_points(contract_class@), contract_class@.program.len()) is None,
            Err(e) => e is InvalidOffset && first_invalid_offset(all_entry_points(contract_class@), contract_class@.program.len())
                == Some(e->InvalidOffset_0),
        },
{
    let ghost c = contract_class@;
    let ghost len = c.program.len();
    proof {
        lemma_first_invalid_offset_append(c.external + c.l1_handler, c.constructor, len);
        lemma_first_invalid_offset_append(c.external, c.l1_handler, len);
    }
    match get_contract_entry_points(contract_class, &EntryPointType::External) {
        Ok(_) => {},
        Err(e) => return Err(e),
    }
    match get_contract_entry_points(contract_class, &EntryPointType::L1Handler) {
        Ok(_) => {},
        Err(e) => return Err(e),
    }
    match get_contract_entry_points(contract_class, &EntryPointType::Constructor) {
        Ok(_) => {},
        Err(e) => return Err(e),
    }
    Ok(())
}

/// The program's words as field elements, in order.
fn program_felts(contract_class: &SierraContractClass) -> (r: Option<Vec<[u8; 32]>>)
    ensures
        r is Some <==> program_fits(contract_class@),
        r matches Some(v) ==> all_canonical(v@) && felt_values(v@) == program_values(contract_class@.program),
{
    let ghost p = contract_class@.program;
    let mut out: Vec<[u8; 32]> = Vec::with_capacity(contract_class.sierra_program.len());
    let mut i: usize = 0;
    proof {
        assert(felt_values(out@) =~= program_values(p.subrange(0, 0)));
    }
    while i < contract_class.sierra_program.len()
        invariant
            0 <= i <= contract_class.sierra_program.len(),
            p == contract_class@.program,
            p.len() == contract_class.sierra_program@.len(),
            all_canonical(out@),
            felt_values(out@) == program_values(p.subrange(0, i as int)),
            forall|j: int| 0 <= j < i ==> fits_felt(#[trigger] p[j]),
        decreases contract_class.sierra_program.len() - i,
    {
        let word = &contract_class.sierra_program[i];
        assert(p[i as int] == word@);
        let fe = match felt_from_be_slice(word.as_slice()) {
            Some(f) => f,
            None => return None,
        };
        let ghost before = out@;
        out.push(fe);
        proof {
            lemma_felt_values_push(before, fe);
            assert(program_values(p.subrange(0, i + 1)) =~= program_values(p.subrange(0, i as int)).push(be_value(p[i as int])));
            assert forall|j: int| 0 <= j < out@.len() implies be_value(#[trigger] out@[j]@) < field_prime() by {
                if j < before.len() {
                    assert(out@[j] == before[j]);
                }
            }
        }
        i = i + 1;
    }
    assert(p.subrange(0, i as int) =~= p);
    Some(out)
}

/// The class hash of a Sierra contract class, as the 32 big-endian bytes of a
/// field element.
///
/// Every entry point's function index is checked first (`InvalidOffset` with
/// the first index past the program's end). Then the version tag, the hash of
/// each kind's entry points (external, L1 handlers, constructors), the ABI's
/// Starknet keccak digest and the hash of the program are fed, in that order,
/// to a Poseidon hash. A selector or program word that is no field element
/// gives `Cast`; a class without an ABI gives `MissingAbi`.
pub fn compute_sierra_class_hash(contract_class: &SierraContractClass) -> (r: Result<[u8; 32], ContractAddressError>)
    ensures
        match r {
            Ok(h) => class_hash_outcome(contract_class@) == Ok::<nat, HashFailure>(be_value(h@))
                && be_value(h@) < field_prime(),
            Err(e) => class_hash_outcome(contract_class@) == Err::<nat, HashFailure>(failure_of(e)),
        },
{
    let ghost c = contract_class@;
    let tag = class_version_tag_bytes();
    proof {
        lemma_field_constants();
        lemma_be_value_bound(tag@);
        lemma_selectors_fit_concat(c.external, c.l1_handler, c.constructor);
        lemma_first_invalid_offset_append(c.external + c.l1_handler, c.constructor, c.program.len());
        lemma_first_invalid_offset_append(c.external, c.l1_handler, c.program.len());
    }
    let api_version = match felt_from_be_slice(tag.as_slice()) {
        Some(f) => f,
        None => return Err(cast_error("&[u8]")),
    };

    match check_entry_point_offsets(contract_class) {
        Ok(_) => {},
        Err(e) => return Err(e),
    }

    let external_functions = match get_contract_entry_points_hashed(contract_class, &EntryPointType::External) {
        Ok(h) => h,
        Err(e) => return Err(e),
    };
    let l1_handlers = match get_contract_entry_points_hashed(contract_class, &EntryPointType::L1Handler) {
        Ok(h) => h,
        Err(e) => return Err(e),
    };
    let constructors = match get_contract_entry_points_hashed(contract_class, &EntryPointType::Constructor) {
        Ok(h) => h,
        Err(e) => return Err(e),
    };

    let abi_hash = match &contract_class.abi {
        None => return Err(ContractAddressError::MissingAbi),
        Some(abi) => {
            let digest = starknet_keccak_bytes(abi.as_str());
            match felt_from_be_slice(digest.as_slice()) {
                Some(f) => f,
                None => return Err(cast_error("&[u8]")),
            }
        },
    };

    let sierra_program_vector = match program_felts(contract_class) {
        Some(v) => v,
        None => return Err(cast_error("String")),
    };
    let sierra_program_hash = poseidon_many(&sierra_program_vector);

    let inputs = vec![api_version, external_functions, l1_handlers, constructors, abi_hash, sierra_program_hash];
    proof {
        assert(felt_values(inputs@) =~= seq![
            be_value(class_version_tag()),
            entry_points_hash(c.external),
            entry_points_hash(c.l1_handler),
            entry_points_hash(c.constructor),
            be_value(abi_digest(c.abi.unwrap())),
            poseidon_hash_of(program_values(c.program)),
        ]);
    }
    Ok(poseidon_many(&inputs))
}

proof fn lemma_first_invalid_offset_found(s: Seq<EntryPointView>, len: nat, i: int)
    requires
        0 <= i < s.len(),
        s[i].1 > len,
    ensures
        exists|j: int|
            0 <= j <= i && first_invalid_offset(s, len) == Some(#[trigger] s[j].1) && s[j].1 > len
                && forall|k: int| 0 <= k < j ==> s[k].1 <= len,
    decreases s.len(),
{
    if s[0].1 > len {
        assert(first_invalid_offset(s, len) == Some(s[0].1));
    } else {
        let t = s.drop_first();
        assert(t[i - 1] == s[i]);
        lemma_first_invalid_offset_found(t, len, i - 1);
        let j = choose|j: int|
            0 <= j <= i - 1 && first_invalid_offset(t, len) == Some(#[trigger] t[j].1) && t[j].1 > len
                && forall|k: int| 0 <= k < j ==> t[k].1 <= len;
        assert(t[j] == s[j + 1]);
        assert forall|k: int| 0 <= k < j + 1 implies s[k].1 <= len by {
            if k > 0 {
                assert(s[k] == t[k - 1]);
            }
        }
        assert(first_invalid_offset(s, len) == Some(s[j + 1].1));
    }
}

/// Hashing is a function of the class's content: two classes with the same
/// content give the same outcome, whether a hash or a failure.
pub proof fn lemma_class_hash_deterministic(a: ClassView, b: ClassView)
    requires
        a == b,
    ensures
        class_hash_outcome(a) == class_hash_outcome(b),
{
}

/// An entry point whose function index lies past the end of the program makes
/// hashing fail with `InvalidOffset`, carrying the function index of the first
/// such entry point in hashing order, whatever else the class holds.
pub proof fn lemma_out_of_range_offset_rejected(c: ClassView, i: int)
    requires
        0 <= i < all_entry_points(c).len(),
        all_entry_points(c)[i].1 > c.program.len(),
    ensures
        exists|j: int|
            0 <= j <= i && class_hash_outcome(c) == Err::<nat, HashFailure>(HashFailure::InvalidOffset(#[trigger] all_entry_points(c)[j].1))
                && all_entry_points(c)[j].1 > c.program.len()
                && forall|k: int| 0 <= k < j ==> all_entry_points(c)[k].1 <= c.program.len(),
{
    lemma_first_invalid_offset_found(all_entry_points(c), c.program.len(), i);
}

} // verus!
