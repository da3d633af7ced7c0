use vstd::prelude::*;

verus! {

/// The kinds of entry point that a contract class exposes.
#[derive(Clone, Copy, Debug, PartialEq, Eq, Structural)]
pub enum EntryPointType {
    Constructor,
    External,
    L1Handler,
}

/// One entry of a class's entry-point table: the selector, as the big-endian
/// bytes of its number, and the index of the function in the program.
#[derive(Clone, Debug)]
pub struct ContractEntryPoint {
    pub selector: Vec<u8>,
    pub function_idx: usize,
}

/// The entry-point table, partitioned by kind, each part in table order.
#[derive(Clone, Debug)]
pub struct ContractEntryPoints {
    pub constructor: Vec<ContractEntryPoint>,
    pub external: Vec<ContractEntryPoint>,
    pub l1_handler: Vec<ContractEntryPoint>,
}

/// A Sierra contract class as the class hash reads it.
///
/// `sierra_program` holds the program's words, each as the big-endian bytes of
/// its number. `abi` is the ABI's canonical text (its items as Python-style
/// JSON), or `None` when the class carries no ABI.
#[derive(Clone, Debug)]
pub struct SierraContractClass {
    pub sierra_program: Vec<Vec<u8>>,
    pub entry_points_by_type: ContractEntryPoints,
    pub abi: Option<String>,
}

/// Why a class hash could not be computed.
#[derive(Clone, Debug)]
pub enum ContractAddressError {
    /// A value could not be turned into a field element (source and target kinds).
    Cast(String, String),
    /// The class carries no ABI.
    MissingAbi,
    /// An entry point's function index lies past the end of the program.
    InvalidOffset(usize),
}

/// An entry point as a pair of its selector's bytes and its function index.
pub type EntryPointView = (Seq<u8>, usize);

/// The mathematical content of a class.
pub struct ClassView {
    pub program: Seq<Seq<u8>>,
    pub constructor: Seq<EntryPointView>,
    pub external: Seq<EntryPointView>,
    pub l1_handler: Seq<EntryPointView>,
    pub abi: Option<Seq<char>>,
}

pub open spec fn entry_points_view(eps: Seq<ContractEntryPoint>) -> Seq<EntryPointView> {
    eps.map_values(|e: ContractEntryPoint| (e.selector@, e.function_idx))
}

impl View for SierraContractClass {
    type V = ClassView;

    open spec fn view(&self) -> ClassView {
        ClassView {
            program: self.sierra_program@.map_values(|w: Vec<u8>| w@),
            constructor: entry_points_view(self.entry_points_by_type.constructor@),
            external: entry_points_view(self.entry_points_by_type.external@),
            l1_handler: entry_points_view(self.entry_points_by_type.l1_handler@),
            abi: match self.abi {
                Some(d) => Some(d@),
                None => None,
            },
        }
    }
}

/// The entries of one kind, in table order.
pub open spec fn table_of(c: ClassView, kind: EntryPointType) -> Seq<EntryPointView> {
    match kind {
        EntryPointType::Constructor => c.constructor,
        EntryPointType::External => c.external,
        EntryPointType::L1Handler => c.l1_handler,
    }
}

} // verus!
