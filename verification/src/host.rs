//! The functions the module imports from the host.
//!
//! Every import comes from the single namespace `env`; the dotted name is the
//! name of the import, not a path. A call to the host is a value here: the
//! library decides which import to call with which arguments, the embedding
//! performs the call and hands the reply back to the library.

use vstd::prelude::*;

verus! {

/// The type of what an import returns.
#[derive(Clone, Copy, Debug, PartialEq, Eq, Structural)]
pub enum ResultType {
    /// Nothing.
    Unit,
    /// A signed 32-bit integer, most often a pointer.
    I32,
    /// A signed 64-bit integer.
    I64,
    /// An unsigned 64-bit integer.
    U64,
    /// A 64-bit floating-point number.
    F64,
}

/// An imported host function.
#[derive(Clone, Copy, Debug, PartialEq, Eq, Structural)]
pub enum Import {
    /// `store.get`
    StoreGet,
    /// `store.set`
    StoreSet,
    /// `store.remove`
    StoreRemove,
    /// `ethereum.call`
    EthereumCall,
    /// `ethereum.encode`
    EthereumEncode,
    /// `ethereum.decode`
    EthereumDecode,
    /// `typeConversion.bytesToString`
    BytesToString,
    /// `typeConversion.bytesToHex`
    BytesToHex,
    /// `typeConversion.bigIntToString`
    BigIntToString,
    /// `typeConversion.bigIntToHex`
    BigIntToHex,
    /// `typeConversion.stringToH160`
    StringToH160,
    /// `typeConversion.bytesToBase58`
    BytesToBase58,
    /// `bigInt.plus`
    BigIntPlus,
    /// `bigInt.minus`
    BigIntMinus,
    /// `bigInt.times`
    BigIntTimes,
    /// `bigInt.dividedBy`
    BigIntDividedBy,
    /// `bigInt.mod`
    BigIntMod,
    /// `bigInt.pow`
    BigIntPow,
    /// `bigInt.bitOr`
    BigIntBitOr,
    /// `bigInt.bitAnd`
    BigIntBitAnd,
    /// `bigInt.leftShift`
    BigIntLeftShift,
    /// `bigInt.rightShift`
    BigIntRightShift,
    /// `bigDecimal.plus`
    BigDecimalPlus,
    /// `bigDecimal.minus`
    BigDecimalMinus,
    /// `bigDecimal.times`
    BigDecimalTimes,
    /// `bigDecimal.dividedBy`
    BigDecimalDividedBy,
    /// `bigDecimal.equals`
    BigDecimalEquals,
    /// `bigDecimal.toString`
    BigDecimalToString,
    /// `bigDecimal.fromString`
    BigDecimalFromString,
    /// `crypto.keccak256`
    CryptoKeccak256,
    /// `json.fromBytes`
    JsonFromBytes,
    /// `json.toI64`
    JsonToI64,
    /// `json.toU64`
    JsonToU64,
    /// `json.toF64`
    JsonToF64,
    /// `json.toBigInt`
    JsonToBigInt,
    /// `ipfs.cat`
    IpfsCat,
    /// `ipfs.map`
    IpfsMap,
    /// `log.log`
    LogLog,
    /// `dataSource.create`
    DataSourceCreate,
    /// `dataSource.address`
    DataSourceAddress,
    /// `dataSource.network`
    DataSourceNetwork,
    /// `dataSource.context`
    DataSourceContext,
    /// `ens.nameByHash`
    EnsNameByHash,
}

/// The number of imports.
pub const IMPORT_COUNT: usize = 43;

impl Import {
    /// The name under which the function is imported.
    pub open spec fn spec_name(self) -> Seq<char> {
        match self {
            Import::StoreGet => "store.get"@,
            Import::StoreSet => "store.set"@,
            Import::StoreRemove => "store.remove"@,
            Import::EthereumCall => "ethereum.call"@,
            Import::EthereumEncode => "ethereum.encode"@,
            Import::EthereumDecode => "ethereum.decode"@,
            Import::BytesToString => "typeConversion.bytesToString"@,
            Import::BytesToHex => "typeConversion.bytesToHex"@,
            Import::BigIntToString => "typeConversion.bigIntToString"@,
            Import::BigIntToHex => "typeConversion.bigIntToHex"@,
            Import::StringToH160 => "typeConversion.stringToH160"@,
            Import::BytesToBase58 => "typeConversion.bytesToBase58"@,
            Import::BigIntPlus => "bigInt.plus"@,
            Import::BigIntMinus => "bigInt.minus"@,
            Import::BigIntTimes => "bigInt.times"@,
            Import::BigIntDividedBy => "bigInt.dividedBy"@,
            Import::BigIntMod => "bigInt.mod"@,
            Import::BigIntPow => "bigInt.pow"@,
            Import::BigIntBitOr => "bigInt.bitOr"@,
            Import::BigIntBitAnd => "bigInt.bitAnd"@,
            Import::BigIntLeftShift => "bigInt.leftShift"@,
            Import::BigIntRightShift => "bigInt.rightShift"@,
            Import::BigDecimalPlus => "bigDecimal.plus"@,
            Import::BigDecimalMinus => "bigDecimal.minus"@,
            Import::BigDecimalTimes => "bigDecimal.times"@,
            Import::BigDecimalDividedBy => "bigDecimal.dividedBy"@,
            Import::BigDecimalEquals => "bigDecimal.equals"@,
            Import::BigDecimalToString => "bigDecimal.toString"@,
            Import::BigDecimalFromString => "bigDecimal.fromString"@,
            Import::CryptoKeccak256 => "crypto.keccak256"@,
            Import::JsonFromBytes => "json.fromBytes"@,
            Import::JsonToI64 => "json.toI64"@,
            Import::JsonToU64 => "json.toU64"@,
            Import::JsonToF64 => "json.toF64"@,
            Import::JsonToBigInt => "json.toBigInt"@,
            Import::IpfsCat => "ipfs.cat"@,
            Import::IpfsMap => "ipfs.map"@,
            Import::LogLog => "log.log"@,
            Import::DataSourceCreate => "dataSource.create"@,
            Import::DataSourceAddress => "dataSource.address"@,
            Import::DataSourceNetwork => "dataSource.network"@,
            Import::DataSourceContext => "dataSource.context"@,
            Import::EnsNameByHash => "ens.nameByHash"@,
        }
    }

    /// The number of parameters, each a 32-bit integer.
    pub open spec fn spec_param_count(self) -> nat {
        match self {
            Import::StoreGet => 2,
            Import::StoreSet => 3,
            Import::StoreRemove => 2,
            Import::EthereumCall => 1,
            Import::EthereumEncode => 1,
            Import::EthereumDecode => 2,
            Import::BytesToString => 1,
            Import::BytesToHex => 1,
            Import::BigIntToString => 1,
            Import::BigIntToHex => 1,
            Import::StringToH160 => 1,
            Import::BytesToBase58 => 1,
            Import::BigIntPlus => 2,
            Import::BigIntMinus => 2,
            Import::BigIntTimes => 2,
            Import::BigIntDividedBy => 2,
            Import::BigIntMod => 2,
            Import::BigIntPow => 2,
            Import::BigIntBitOr => 2,
            Import::BigIntBitAnd => 2,
            Import::BigIntLeftShift => 2,
            Import::BigIntRightShift => 2,
            Import::BigDecimalPlus => 2,
            Import::BigDecimalMinus => 2,
            Import::BigDecimalTimes => 2,
            Import::BigDecimalDividedBy => 2,
            Import::BigDecimalEquals => 2,
            Import::BigDecimalToString => 1,
            Import::BigDecimalFromString => 1,
            Import::CryptoKeccak256 => 1,
            Import::JsonFromBytes => 1,
            Import::JsonToI64 => 1,
            Import::JsonToU64 => 1,
            Import::JsonToF64 => 1,
            Import::JsonToBigInt => 1,
            Import::IpfsCat => 1,
            Import::IpfsMap => 4,
            Import::LogLog => 2,
            Import::DataSourceCreate => 2,
            Import::DataSourceAddress => 0,
            Import::DataSourceNetwork => 0,
            Import::DataSourceContext => 0,
            Import::EnsNameByHash => 1,
        }
    }

    /// The type of the result.
    pub open spec fn spec_result(self) -> ResultType {
        match self {
            Import::StoreGet => ResultType::I32,
            Import::StoreSet => ResultType::Unit,
            Import::StoreRemove => ResultType::Unit,
            Import::EthereumCall => ResultType::I32,
            Import::EthereumEncode => ResultType::I32,
            Import::EthereumDecode => ResultType::I32,
            Import::BytesToString => ResultType::I32,
            Import::BytesToHex => ResultType::I32,
            Import::BigIntToString => ResultType::I32,
            Import::BigIntToHex => ResultType::I32,
            Import::StringToH160 => ResultType::I32,
            Import::BytesToBase58 => ResultType::I32,
            Import::BigIntPlus => ResultType::I32,
            Import::BigIntMinus => ResultType::I32,
            Import::BigIntTimes => ResultType::I32,
            Import::BigIntDividedBy => ResultType::I32,
            Import::BigIntMod => ResultType::I32,
            Import::BigIntPow => ResultType::I32,
            Import::BigIntBitOr => ResultType::I32,
            Import::BigIntBitAnd => ResultType::I32,
            Import::BigIntLeftShift => ResultType::I32,
            Import::BigIntRightShift => ResultType::I32,
            Import::BigDecimalPlus => ResultType::I32,
            Import::BigDecimalMinus => ResultType::I32,
            Import::BigDecimalTimes => ResultType::I32,
            Import::BigDecimalDividedBy => ResultType::I32,
            Import::BigDecimalEquals => ResultType::I32,
            Import::BigDecimalToString => ResultType::I32,
            Import::BigDecimalFromString => ResultType::I32,
            Import::CryptoKeccak256 => ResultType::I32,
            Import::JsonFromBytes => ResultType::I32,
            Import::JsonToI64 => ResultType::I64,
            Import::JsonToU64 => ResultType::U64,
            Import::JsonToF64 => ResultType::F64,
            Import::JsonToBigInt => ResultType::I32,
            Import::IpfsCat => ResultType::I32,
            Import::IpfsMap => ResultType::Unit,
            Import::LogLog => ResultType::Unit,
            Import::DataSourceCreate => ResultType::Unit,
            Import::DataSourceAddress => ResultType::I32,
            Import::DataSourceNetwork => ResultType::I32,
            Import::DataSourceContext => ResultType::I32,
            Import::EnsNameByHash => ResultType::I32,
        }
    }

    /// The position of the import in the list of all imports.
    pub open spec fn spec_index(self) -> int {
        match self {
            Import::StoreGet => 0,
            Import::StoreSet => 1,
            Import::StoreRemove => 2,
            Import::EthereumCall => 3,
            Import::EthereumEncode => 4,
            Import::EthereumDecode => 5,
            Import::BytesToString => 6,
            Import::BytesToHex => 7,
            Import::BigIntToString => 8,
            Import::BigIntToHex => 9,
            Import::StringToH160 => 10,
            Import::BytesToBase58 => 11,
            Import::BigIntPlus => 12,
            Import::BigIntMinus => 13,
            Import::BigIntTimes => 14,
            Import::BigIntDividedBy => 15,
            Import::BigIntMod => 16,
            Import::BigIntPow => 17,
            Import::BigIntBitOr => 18,
            Import::BigIntBitAnd => 19,
            Import::BigIntLeftShift => 20,
            Import::BigIntRightShift => 21,
            Import::BigDecimalPlus => 22,
            Import::BigDecimalMinus => 23,
            Import::BigDecimalTimes => 24,
            Import::BigDecimalDividedBy => 25,
            Import::BigDecimalEquals => 26,
            Import::BigDecimalToString => 27,
            Import::BigDecimalFromString => 28,
            Import::CryptoKeccak256 => 29,
            Import::JsonFromBytes => 30,
            Import::JsonToI64 => 31,
            Import::JsonToU64 => 32,
            Import::JsonToF64 => 33,
            Import::JsonToBigInt => 34,
            Import::IpfsCat => 35,
            Import::IpfsMap => 36,
            Import::LogLog => 37,
            Import::DataSourceCreate => 38,
            Import::DataSourceAddress => 39,
            Import::DataSourceNetwork => 40,
            Import::DataSourceContext => 41,
            Import::EnsNameByHash => 42,
        }
    }

    /// The namespace of every import.
    pub open spec fn spec_module(self) -> Seq<char> {
        "env"@
    }

    /// The name under which the function is imported.
    pub fn name(self) -> (r: &'static str)
        ensures
            r@ == self.spec_name(),
    {
        match self {
            Import::StoreGet => "store.get",
            Import::StoreSet => "store.set",
            Import::StoreRemove => "store.remove",
            Import::EthereumCall => "ethereum.call",
            Import::EthereumEncode => "ethereum.encode",
            Import::EthereumDecode => "ethereum.decode",
            Import::BytesToString => "typeConversion.bytesToString",
            Import::BytesToHex => "typeConversion.bytesToHex",
            Import::BigIntToString => "typeConversion.bigIntToString",
            Import::BigIntToHex => "typeConversion.bigIntToHex",
            Import::StringToH160 => "typeConversion.stringToH160",
            Import::BytesToBase58 => "typeConversion.bytesToBase58",
            Import::BigIntPlus => "bigInt.plus",
            Import::BigIntMinus => "bigInt.minus",
            Import::BigIntTimes => "bigInt.times",
            Import::BigIntDividedBy => "bigInt.dividedBy",
            Import::BigIntMod => "bigInt.mod",
            Import::BigIntPow => "bigInt.pow",
            Import::BigIntBitOr => "bigInt.bitOr",
            Import::BigIntBitAnd => "bigInt.bitAnd",
            Import::BigIntLeftShift => "bigInt.leftShift",
            Import::BigIntRightShift => "bigInt.rightShift",
            Import::BigDecimalPlus => "bigDecimal.plus",
            Import::BigDecimalMinus => "bigDecimal.minus",
            Import::BigDecimalTimes => "bigDecimal.times",
            Import::BigDecimalDividedBy => "bigDecimal.dividedBy",
            Import::BigDecimalEquals => "bigDecimal.equals",
            Import::BigDecimalToString => "bigDecimal.toString",
            Import::BigDecimalFromString => "bigDecimal.fromString",
            Import::CryptoKeccak256 => "crypto.keccak256",
            Import::JsonFromBytes => "json.fromBytes",
            Import::JsonToI64 => "json.toI64",
            Import::JsonToU64 => "json.toU64",
            Import::JsonToF64 => "json.toF64",
            Import::JsonToBigInt => "json.toBigInt",
            Import::IpfsCat => "ipfs.cat",
            Import::IpfsMap => "ipfs.map",
            Import::LogLog => "log.log",
            Import::DataSourceCreate => "dataSource.create",
            Import::DataSourceAddress => "dataSource.address",
            Import::DataSourceNetwork => "dataSource.network",
            Import::DataSourceContext => "dataSource.context",
            Import::EnsNameByHash => "ens.nameByHash",
        }
    }

    /// The namespace from which the function is imported: always `env`.
    pub fn module(self) -> (r: &'static str)
        ensures
            r@ == self.spec_module(),
            r@ == "env"@,
    {
        "env"
    }

    /// The number of parameters, each a 32-bit integer.
    pub fn param_count(self) -> (n: usize)
        ensures
            n == self.spec_param_count(),
            n <= 4,
    {
        match self {
            Import::StoreGet => 2,
            Import::StoreSet => 3,
            Import::StoreRemove => 2,
            Import::EthereumCall => 1,
            Import::EthereumEncode => 1,
            Import::EthereumDecode => 2,
            Import::BytesToString => 1,
            Import::BytesToHex => 1,
            Import::BigIntToString => 1,
            Import::BigIntToHex => 1,
            Import::StringToH160 => 1,
            Import::BytesToBase58 => 1,
            Import::BigIntPlus => 2,
            Import::BigIntMinus => 2,
            Import::BigIntTimes => 2,
            Import::BigIntDividedBy => 2,
            Import::BigIntMod => 2,
            Import::BigIntPow => 2,
            Import::BigIntBitOr => 2,
            Import::BigIntBitAnd => 2,
            Import::BigIntLeftShift => 2,
            Import::BigIntRightShift => 2,
            Import::BigDecimalPlus => 2,
            Import::BigDecimalMinus => 2,
            Import::BigDecimalTimes => 2,
            Import::BigDecimalDividedBy => 2,
            Import::BigDecimalEquals => 2,
            Import::BigDecimalToString => 1,
            Import::BigDecimalFromString => 1,
            Import::CryptoKeccak256 => 1,
            Import::JsonFromBytes => 1,
            Import::JsonToI64 => 1,
            Import::JsonToU64 => 1,
            Import::JsonToF64 => 1,
            Import::JsonToBigInt => 1,
            Import::IpfsCat => 1,
            Import::IpfsMap => 4,
            Import::LogLog => 2,
            Import::DataSourceCreate => 2,
            Import::DataSourceAddress => 0,
            Import::DataSourceNetwork => 0,
            Import::DataSourceContext => 0,
            Import::EnsNameByHash => 1,
        }
    }

    /// The type of the result.
    pub fn result(self) -> (r: ResultType)
        ensures
            r == self.spec_result(),
    {
        match self {
            Import::StoreGet => ResultType::I32,
            Import::StoreSet => ResultType::Unit,
            Import::StoreRemove => ResultType::Unit,
            Import::EthereumCall => ResultType::I32,
            Import::EthereumEncode => ResultType::I32,
            Import::EthereumDecode => ResultType::I32,
            Import::BytesToString => ResultType::I32,
            Import::BytesToHex => ResultType::I32,
            Import::BigIntToString => ResultType::I32,
            Import::BigIntToHex => ResultType::I32,
            Import::StringToH160 => ResultType::I32,
            Import::BytesToBase58 => ResultType::I32,
            Import::BigIntPlus => ResultType::I32,
            Import::BigIntMinus => ResultType::I32,
            Import::BigIntTimes => ResultType::I32,
            Import::BigIntDividedBy => ResultType::I32,
            Import::BigIntMod => ResultType::I32,
            Import::BigIntPow => ResultType::I32,
            Import::BigIntBitOr => ResultType::I32,
            Import::BigIntBitAnd => ResultType::I32,
            Import::BigIntLeftShift => ResultType::I32,
            Import::BigIntRightShift => ResultType::I32,
            Import::BigDecimalPlus => ResultType::I32,
            Import::BigDecimalMinus => ResultType::I32,
            Import::BigDecimalTimes => ResultType::I32,
            Import::BigDecimalDividedBy => ResultType::I32,
            Import::BigDecimalEquals => ResultType::I32,
            Import::BigDecimalToString => ResultType::I32,
            Import::BigDecimalFromString => ResultType::I32,
            Import::CryptoKeccak256 => ResultType::I32,
            Import::JsonFromBytes => ResultType::I32,
            Import::JsonToI64 => ResultType::I64,
            Import::JsonToU64 => ResultType::U64,
            Import::JsonToF64 => ResultType::F64,
            Import::JsonToBigInt => ResultType::I32,
            Import::IpfsCat => ResultType::I32,
            Import::IpfsMap => ResultType::Unit,
            Import::LogLog => ResultType::Unit,
            Import::DataSourceCreate => ResultType::Unit,
            Import::DataSourceAddress => ResultType::I32,
            Import::DataSourceNetwork => ResultType::I32,
            Import::DataSourceContext => ResultType::I32,
            Import::EnsNameByHash => ResultType::I32,
        }
    }

    /// All imports, each once.
    pub fn all() -> (v: Vec<Import>)
        ensures
            v@.len() == IMPORT_COUNT,
            forall|i: Import| #[trigger] v@[i.spec_index()] == i,
    {
        let mut v: Vec<Import> = Vec::new();
        v.push(Import::StoreGet);
        v.push(Import::StoreSet);
        v.push(Import::StoreRemove);
        v.push(Import::EthereumCall);
        v.push(Import::EthereumEncode);
        v.push(Import::EthereumDecode);
        v.push(Import::BytesToString);
        v.push(Import::BytesToHex);
        v.push(Import::BigIntToString);
        v.push(Import::BigIntToHex);
        v.push(Import::StringToH160);
        v.push(Import::BytesToBase58);
        v.push(Import::BigIntPlus);
        v.push(Import::BigIntMinus);
        v.push(Import::BigIntTimes);
        v.push(Import::BigIntDividedBy);
        v.push(Import::BigIntMod);
        v.push(Import::BigIntPow);
        v.push(Import::BigIntBitOr);
        v.push(Import::BigIntBitAnd);
        v.push(Import::BigIntLeftShift);
        v.push(Import::BigIntRightShift);
        v.push(Import::BigDecimalPlus);
        v.push(Import::BigDecimalMinus);
        v.push(Import::BigDecimalTimes);
        v.push(Import::BigDecimalDividedBy);
        v.push(Import::BigDecimalEquals);
        v.push(Import::BigDecimalToString);
        v.push(Import::BigDecimalFromString);
        v.push(Import::CryptoKeccak256);
        v.push(Import::JsonFromBytes);
        v.push(Import::JsonToI64);
        v.push(Import::JsonToU64);
        v.push(Import::JsonToF64);
        v.push(Import::JsonToBigInt);
        v.push(Import::IpfsCat);
        v.push(Import::IpfsMap);
        v.push(Import::LogLog);
        v.push(Import::DataSourceCreate);
        v.push(Import::DataSourceAddress);
        v.push(Import::DataSourceNetwork);
        v.push(Import::DataSourceContext);
        v.push(Import::EnsNameByHash);
        v
    }
}

/// The import at position `k` of the list of all imports.
pub open spec fn import_at(k: int) -> Import {
    if k <= 0 {
        Import::StoreGet
    } else if k == 1 {
        Import::StoreSet
    } else if k == 2 {
        Import::StoreRemove
    } else if k == 3 {
        Import::EthereumCall
    } else if k == 4 {
        Import::EthereumEncode
    } else if k == 5 {
        Import::EthereumDecode
    } else if k == 6 {
        Import::BytesToString
    } else if k == 7 {
        Import::BytesToHex
    } else if k == 8 {
        Import::BigIntToString
    } else if k == 9 {
        Import::BigIntToHex
    } else if k == 10 {
        Import::StringToH160
    } else if k == 11 {
        Import::BytesToBase58
    } else if k == 12 {
        Import::BigIntPlus
    } else if k == 13 {
        Import::BigIntMinus
    } else if k == 14 {
        Import::BigIntTimes
    } else if k == 15 {
        Import::BigIntDividedBy
    } else if k == 16 {
        Import::BigIntMod
    } else if k == 17 {
        Import::BigIntPow
    } else if k == 18 {
        Import::BigIntBitOr
    } else if k == 19 {
        Import::BigIntBitAnd
    } else if k == 20 {
        Import::BigIntLeftShift
    } else if k == 21 {
        Import::BigIntRightShift
    } else if k == 22 {
        Import::BigDecimalPlus
    } else if k == 23 {
        Import::BigDecimalMinus
    } else if k == 24 {
        Import::BigDecimalTimes
    } else if k == 25 {
        Import::BigDecimalDividedBy
    } else if k == 26 {
        Import::BigDecimalEquals
    } else if k == 27 {
        Import::BigDecimalToString
    } else if k == 28 {
        Import::BigDecimalFromString
    } else if k == 29 {
        Import::CryptoKeccak256
    } else if k == 30 {
        Import::JsonFromBytes
    } else if k == 31 {
        Import::JsonToI64
    } else if k == 32 {
        Import::JsonToU64
    } else if k == 33 {
        Import::JsonToF64
    } else if k == 34 {
        Import::JsonToBigInt
    } else if k == 35 {
        Import::IpfsCat
    } else if k == 36 {
        Import::IpfsMap
    } else if k == 37 {
        Import::LogLog
    } else if k == 38 {
        Import::DataSourceCreate
    } else if k == 39 {
        Import::DataSourceAddress
    } else if k == 40 {
        Import::DataSourceNetwork
    } else if k == 41 {
        Import::DataSourceContext
    } else {
        Import::EnsNameByHash
    }
}

/// Positions and imports determine each other.
pub proof fn lemma_index_of(k: int)
    requires
        0 <= k < IMPORT_COUNT,
    ensures
        import_at(k).spec_index() == k,
{
}

/// The namespace of the imports is `env`, which does not begin with `wasi`.
pub proof fn lemma_import_namespace(i: Import)
    ensures
        i.spec_module() == seq!['e', 'n', 'v'],
        !(i.spec_module().len() >= 4 && i.spec_module().subrange(0, 4) == seq!['w', 'a', 's', 'i']),
{
    reveal_strlit("env");
    assert("env"@ =~= seq!['e', 'n', 'v']);
}

/// A call to the host: the import and the arguments to pass.
#[derive(Debug)]
pub struct HostCall {
    pub import: Import,
    pub args: Vec<i32>,
}

impl HostCall {
    /// The call passes as many arguments as the import has parameters.
    pub open spec fn wf(&self) -> bool {
        self.args@.len() == self.import.spec_param_count()
    }

    /// The call is to `import` with the arguments `args`.
    pub open spec fn is(&self, import: Import, args: Seq<i32>) -> bool {
        self.import == import && self.args@ == args
    }
}

/// `store.get`: looks an entity up by type and identifier; zero when there is none.
pub fn store_get(entity_type: i32, id: i32) -> (request: HostCall)
    ensures
        request.is(Import::StoreGet, seq![entity_type, id]),
        request.wf(),
{
    let mut args: Vec<i32> = Vec::new();
    args.push(entity_type);
    args.push(id);
    assert(args@ =~= seq![entity_type, id]);
    HostCall { import: Import::StoreGet, args }
}

/// `store.set`: writes an entity.
pub fn store_set(entity_type: i32, id: i32, data: i32) -> (request: HostCall)
    ensures
        request.is(Import::StoreSet, seq![entity_type, id, data]),
        request.wf(),
{
    let mut args: Vec<i32> = Vec::new();
    args.push(entity_type);
    args.push(id);
    args.push(data);
    assert(args@ =~= seq![entity_type, id, data]);
    HostCall { import: Import::StoreSet, args }
}

/// `store.remove`: removes an entity.
pub fn store_remove(entity_type: i32, id: i32) -> (request: HostCall)
    ensures
        request.is(Import::StoreRemove, seq![entity_type, id]),
        request.wf(),
{
    let mut args: Vec<i32> = Vec::new();
    args.push(entity_type);
    args.push(id);
    assert(args@ =~= seq![entity_type, id]);
    HostCall { import: Import::StoreRemove, args }
}

/// `ethereum.call`: calls a contract; zero when the call reverts.
pub fn ethereum_call(call: i32) -> (request: HostCall)
    ensures
        request.is(Import::EthereumCall, seq![call]),
        request.wf(),
{
    let mut args: Vec<i32> = Vec::new();
    args.push(call);
    assert(args@ =~= seq![call]);
    HostCall { import: Import::EthereumCall, args }
}

/// `ethereum.encode`: encodes a chain value.
pub fn ethereum_encode(params: i32) -> (request: HostCall)
    ensures
        request.is(Import::EthereumEncode, seq![params]),
        request.wf(),
{
    let mut args: Vec<i32> = Vec::new();
    args.push(params);
    assert(args@ =~= seq![params]);
    HostCall { import: Import::EthereumEncode, args }
}

/// `ethereum.decode`: decodes a chain value.
pub fn ethereum_decode(types: i32, data: i32) -> (request: HostCall)
    ensures
        request.is(Import::EthereumDecode, seq![types, data]),
        request.wf(),
{
    let mut args: Vec<i32> = Vec::new();
    args.push(types);
    args.push(data);
    assert(args@ =~= seq![types, data]);
    HostCall { import: Import::EthereumDecode, args }
}

/// `typeConversion.bytesToString`: reads bytes as a string.
pub fn bytes_to_string(bytes: i32) -> (request: HostCall)
    ensures
        request.is(Import::BytesToString, seq![bytes]),
        request.wf(),
{
    let mut args: Vec<i32> = Vec::new();
    args.push(bytes);
    assert(args@ =~= seq![bytes]);
    HostCall { import: Import::BytesToString, args }
}

/// `typeConversion.bytesToHex`: formats bytes in hexadecimal.
pub fn bytes_to_hex(bytes: i32) -> (request: HostCall)
    ensures
        request.is(Import::BytesToHex, seq![bytes]),
        request.wf(),
{
    let mut args: Vec<i32> = Vec::new();
    args.push(bytes);
    assert(args@ =~= seq![bytes]);
    HostCall { import: Import::BytesToHex, args }
}

/// `typeConversion.bigIntToString`: formats a big integer in decimal.
pub fn big_int_to_string(bigint: i32) -> (request: HostCall)
    ensures
        request.is(Import::BigIntToString, seq![bigint]),
        request.wf(),
{
    let mut args: Vec<i32> = Vec::new();
    args.push(bigint);
    assert(args@ =~= seq![bigint]);
    HostCall { import: Import::BigIntToString, args }
}

/// `typeConversion.bigIntToHex`: formats a big integer in hexadecimal.
pub fn big_int_to_hex(bigint: i32) -> (request: HostCall)
    ensures
        request.is(Import::BigIntToHex, seq![bigint]),
        request.wf(),
{
    let mut args: Vec<i32> = Vec::new();
    args.push(bigint);
    assert(args@ =~= seq![bigint]);
    HostCall { import: Import::BigIntToHex, args }
}

/// `typeConversion.stringToH160`: parses an address.
pub fn string_to_h160(s: i32) -> (request: HostCall)
    ensures
        request.is(Import::StringToH160, seq![s]),
        request.wf(),
{
    let mut args: Vec<i32> = Vec::new();
    args.push(s);
    assert(args@ =~= seq![s]);
    HostCall { import: Import::StringToH160, args }
}

/// `typeConversion.bytesToBase58`: formats bytes in base 58.
pub fn bytes_to_base58(bytes: i32) -> (request: HostCall)
    ensures
        request.is(Import::BytesToBase58, seq![bytes]),
        request.wf(),
{
    let mut args: Vec<i32> = Vec::new();
    args.push(bytes);
    assert(args@ =~= seq![bytes]);
    HostCall { import: Import::BytesToBase58, args }
}

/// `bigInt.plus`: adds two big integers.
pub fn big_int_plus(a: i32, b: i32) -> (request: HostCall)
    ensures
        request.is(Import::BigIntPlus, seq![a, b]),
        request.wf(),
{
    let mut args: Vec<i32> = Vec::new();
    args.push(a);
    args.push(b);
    assert(args@ =~= seq![a, b]);
    HostCall { import: Import::BigIntPlus, args }
}

/// `bigInt.minus`: subtracts two big integers.
pub fn big_int_minus(a: i32, b: i32) -> (request: HostCall)
    ensures
        request.is(Import::BigIntMinus, seq![a, b]),
        request.wf(),
{
    let mut args: Vec<i32> = Vec::new();
    args.push(a);
    args.push(b);
    assert(args@ =~= seq![a, b]);
    HostCall { import: Import::BigIntMinus, args }
}

/// `bigInt.times`: multiplies two big integers.
pub fn big_int_times(a: i32, b: i32) -> (request: HostCall)
    ensures
        request.is(Import::BigIntTimes, seq![a, b]),
        request.wf(),
{
    let mut args: Vec<i32> = Vec::new();
    args.push(a);
    args.push(b);
    assert(args@ =~= seq![a, b]);
    HostCall { import: Import::BigIntTimes, args }
}

/// `bigInt.dividedBy`: divides two big integers.
pub fn big_int_divided_by(a: i32, b: i32) -> (request: HostCall)
    ensures
        request.is(Import::BigIntDividedBy, seq![a, b]),
        request.wf(),
{
    let mut args: Vec<i32> = Vec::new();
    args.push(a);
    args.push(b);
    assert(args@ =~= seq![a, b]);
    HostCall { import: Import::BigIntDividedBy, args }
}

/// `bigInt.mod`: the remainder of two big integers.
pub fn big_int_mod(a: i32, b: i32) -> (request: HostCall)
    ensures
        request.is(Import::BigIntMod, seq![a, b]),
        request.wf(),
{
    let mut args: Vec<i32> = Vec::new();
    args.push(a);
    args.push(b);
    assert(args@ =~= seq![a, b]);
    HostCall { import: Import::BigIntMod, args }
}

/// `bigInt.pow`: raises a big integer to a small power.
pub fn big_int_pow(base: i32, exp: i32) -> (request: HostCall)
    ensures
        request.is(Import::BigIntPow, seq![base, exp]),
        request.wf(),
{
    let mut args: Vec<i32> = Vec::new();
    args.push(base);
    args.push(exp);
    assert(args@ =~= seq![base, exp]);
    HostCall { import: Import::BigIntPow, args }
}

/// `bigInt.bitOr`: the bitwise or of two big integers.
pub fn big_int_bit_or(a: i32, b: i32) -> (request: HostCall)
    ensures
        request.is(Import::BigIntBitOr, seq![a, b]),
        request.wf(),
{
    let mut args: Vec<i32> = Vec::new();
    args.push(a);
    args.push(b);
    assert(args@ =~= seq![a, b]);
    HostCall { import: Import::BigIntBitOr, args }
}

/// `bigInt.bitAnd`: the bitwise and of two big integers.
pub fn big_int_bit_and(a: i32, b: i32) -> (request: HostCall)
    ensures
        request.is(Import::BigIntBitAnd, seq![a, b]),
        request.wf(),
{
    let mut args: Vec<i32> = Vec::new();
    args.push(a);
    args.push(b);
    assert(args@ =~= seq![a, b]);
    HostCall { import: Import::BigIntBitAnd, args }
}

/// `bigInt.leftShift`: shifts a big integer left by a small count.
pub fn big_int_left_shift(a: i32, bits: i32) -> (request: HostCall)
    ensures
        request.is(Import::BigIntLeftShift, seq![a, bits]),
        request.wf(),
{
    let mut args: Vec<i32> = Vec::new();
    args.push(a);
    args.push(bits);
    assert(args@ =~= seq![a, bits]);
    HostCall { import: Import::BigIntLeftShift, args }
}

/// `bigInt.rightShift`: shifts a big integer right by a small count.
pub fn big_int_right_shift(a: i32, bits: i32) -> (request: HostCall)
    ensures
        request.is(Import::BigIntRightShift, seq![a, bits]),
        request.wf(),
{
    let mut args: Vec<i32> = Vec::new();
    args.push(a);
    args.push(bits);
    assert(args@ =~= seq![a, bits]);
    HostCall { import: Import::BigIntRightShift, args }
}

/// `bigDecimal.plus`: adds two big decimals.
pub fn big_decimal_plus(a: i32, b: i32) -> (request: HostCall)
    ensures
        request.is(Import::BigDecimalPlus, seq![a, b]),
        request.wf(),
{
    let mut args: Vec<i32> = Vec::new();
    args.push(a);
    args.push(b);
    assert(args@ =~= seq![a, b]);
    HostCall { import: Import::BigDecimalPlus, args }
}

/// `bigDecimal.minus`: subtracts two big decimals.
pub fn big_decimal_minus(a: i32, b: i32) -> (request: HostCall)
    ensures
        request.is(Import::BigDecimalMinus, seq![a, b]),
        request.wf(),
{
    let mut args: Vec<i32> = Vec::new();
    args.push(a);
    args.push(b);
    assert(args@ =~= seq![a, b]);
    HostCall { import: Import::BigDecimalMinus, args }
}

/// `bigDecimal.times`: multiplies two big decimals.
pub fn big_decimal_times(a: i32, b: i32) -> (request: HostCall)
    ensures
        request.is(Import::BigDecimalTimes, seq![a, b]),
        request.wf(),
{
    let mut args: Vec<i32> = Vec::new();
    args.push(a);
    args.push(b);
    assert(args@ =~= seq![a, b]);
    HostCall { import: Import::BigDecimalTimes, args }
}

/// `bigDecimal.dividedBy`: divides two big decimals.
pub fn big_decimal_divided_by(a: i32, b: i32) -> (request: HostCall)
    ensures
        request.is(Import::BigDecimalDividedBy, seq![a, b]),
        request.wf(),
{
    let mut args: Vec<i32> = Vec::new();
    args.push(a);
    args.push(b);
    assert(args@ =~= seq![a, b]);
    HostCall { import: Import::BigDecimalDividedBy, args }
}

/// `bigDecimal.equals`: compares two big decimals; non-zero when equal.
pub fn big_decimal_equals(a: i32, b: i32) -> (request: HostCall)
    ensures
        request.is(Import::BigDecimalEquals, seq![a, b]),
        request.wf(),
{
    let mut args: Vec<i32> = Vec::new();
    args.push(a);
    args.push(b);
    assert(args@ =~= seq![a, b]);
    HostCall { import: Import::BigDecimalEquals, args }
}

/// `bigDecimal.toString`: formats a big decimal.
pub fn big_decimal_to_string(val: i32) -> (request: HostCall)
    ensures
        request.is(Import::BigDecimalToString, seq![val]),
        request.wf(),
{
    let mut args: Vec<i32> = Vec::new();
    args.push(val);
    assert(args@ =~= seq![val]);
    HostCall { import: Import::BigDecimalToString, args }
}

/// `bigDecimal.fromString`: parses a big decimal.
pub fn big_decimal_from_string(s: i32) -> (request: HostCall)
    ensures
        request.is(Import::BigDecimalFromString, seq![s]),
        request.wf(),
{
    let mut args: Vec<i32> = Vec::new();
    args.push(s);
    assert(args@ =~= seq![s]);
    HostCall { import: Import::BigDecimalFromString, args }
}

/// `crypto.keccak256`: hashes bytes with Keccak-256.
pub fn crypto_keccak256(data: i32) -> (request: HostCall)
    ensures
        request.is(Import::CryptoKeccak256, seq![data]),
        request.wf(),
{
    let mut args: Vec<i32> = Vec::new();
    args.push(data);
    assert(args@ =~= seq![data]);
    HostCall { import: Import::CryptoKeccak256, args }
}

/// `json.fromBytes`: parses JSON.
pub fn json_from_bytes(bytes: i32) -> (request: HostCall)
    ensures
        request.is(Import::JsonFromBytes, seq![bytes]),
        request.wf(),
{
    let mut args: Vec<i32> = Vec::new();
    args.push(bytes);
    assert(args@ =~= seq![bytes]);
    HostCall { import: Import::JsonFromBytes, args }
}

/// `json.toI64`: reads a JSON value as a signed 64-bit integer.
pub fn json_to_i64(value: i32) -> (request: HostCall)
    ensures
        request.is(Import::JsonToI64, seq![value]),
        request.wf(),
{
    let mut args: Vec<i32> = Vec::new();
    args.push(value);
    assert(args@ =~= seq![value]);
    HostCall { import: Import::JsonToI64, args }
}

/// `json.toU64`: reads a JSON value as an unsigned 64-bit integer.
pub fn json_to_u64(value: i32) -> (request: HostCall)
    ensures
        request.is(Import::JsonToU64, seq![value]),
        request.wf(),
{
    let mut args: Vec<i32> = Vec::new();
    args.push(value);
    assert(args@ =~= seq![value]);
    HostCall { import: Import::JsonToU64, args }
}

/// `json.toF64`: reads a JSON value as a 64-bit float.
pub fn json_to_f64(value: i32) -> (request: HostCall)
    ensures
        request.is(Import::JsonToF64, seq![value]),
        request.wf(),
{
    let mut args: Vec<i32> = Vec::new();
    args.push(value);
    assert(args@ =~= seq![value]);
    HostCall { import: Import::JsonToF64, args }
}

/// `json.toBigInt`: reads a JSON value as a big integer.
pub fn json_to_big_int(value: i32) -> (request: HostCall)
    ensures
        request.is(Import::JsonToBigInt, seq![value]),
        request.wf(),
{
    let mut args: Vec<i32> = Vec::new();
    args.push(value);
    assert(args@ =~= seq![value]);
    HostCall { import: Import::JsonToBigInt, args }
}

/// `ipfs.cat`: fetches a file; zero when it cannot be had.
pub fn ipfs_cat(hash: i32) -> (request: HostCall)
    ensures
        request.is(Import::IpfsCat, seq![hash]),
        request.wf(),
{
    let mut args: Vec<i32> = Vec::new();
    args.push(hash);
    assert(args@ =~= seq![hash]);
    HostCall { import: Import::IpfsCat, args }
}

/// `ipfs.map`: streams a file through a callback.
pub fn ipfs_map(hash: i32, callback: i32, user_data: i32, flags: i32) -> (request: HostCall)
    ensures
        request.is(Import::IpfsMap, seq![hash, callback, user_data, flags]),
        request.wf(),
{
    let mut args: Vec<i32> = Vec::new();
    args.push(hash);
    args.push(callback);
    args.push(user_data);
    args.push(flags);
    assert(args@ =~= seq![hash, callback, user_data, flags]);
    HostCall { import: Import::IpfsMap, args }
}

/// `log.log`: logs a message with a severity.
pub fn log_log(level: i32, msg: i32) -> (request: HostCall)
    ensures
        request.is(Import::LogLog, seq![level, msg]),
        request.wf(),
{
    let mut args: Vec<i32> = Vec::new();
    args.push(level);
    args.push(msg);
    assert(args@ =~= seq![level, msg]);
    HostCall { import: Import::LogLog, args }
}

/// `dataSource.create`: creates a data source from a template.
pub fn data_source_create(name: i32, params: i32) -> (request: HostCall)
    ensures
        request.is(Import::DataSourceCreate, seq![name, params]),
        request.wf(),
{
    let mut args: Vec<i32> = Vec::new();
    args.push(name);
    args.push(params);
    assert(args@ =~= seq![name, params]);
    HostCall { import: Import::DataSourceCreate, args }
}

/// `dataSource.address`: the address of the current data source.
pub fn data_source_address() -> (request: HostCall)
    ensures
        request.is(Import::DataSourceAddress, seq![]),
        request.wf(),
{
    let mut args: Vec<i32> = Vec::new();
    assert(args@ =~= Seq::<i32>::empty());
    HostCall { import: Import::DataSourceAddress, args }
}

/// `dataSource.network`: the network of the current data source.
pub fn data_source_network() -> (request: HostCall)
    ensures
        request.is(Import::DataSourceNetwork, seq![]),
        request.wf(),
{
    let mut args: Vec<i32> = Vec::new();
    assert(args@ =~= Seq::<i32>::empty());
    HostCall { import: Import::DataSourceNetwork, args }
}

/// `dataSource.context`: the context of the current data source.
pub fn data_source_context() -> (request: HostCall)
    ensures
        request.is(Import::DataSourceContext, seq![]),
        request.wf(),
{
    let mut args: Vec<i32> = Vec::new();
    assert(args@ =~= Seq::<i32>::empty());
    HostCall { import: Import::DataSourceContext, args }
}

/// `ens.nameByHash`: looks a name up by its hash.
pub fn ens_name_by_hash(hash: i32) -> (request: HostCall)
    ensures
        request.is(Import::EnsNameByHash, seq![hash]),
        request.wf(),
{
    let mut args: Vec<i32> = Vec::new();
    args.push(hash);
    assert(args@ =~= seq![hash]);
    HostCall { import: Import::EnsNameByHash, args }
}

} // verus!
