//! Where the state of the engine lives: outside the working tree, in a
//! directory that the repository's path picks.
use vstd::prelude::*;
use vstd::utf8::encode_utf8;
use crate::digest::{bytes_hex, hex_of};
use crate::error::EngineError;
use crate::path::{joined, lossy_text, HostPath};
use crate::text::{decimal_nat, push_nat};

verus! {

/// The version of the record that a store keeps of itself.
pub const STORE_SCHEMA: u32 = 1;

/// Where stores are below a user's home.
pub const STORES_BELOW_HOME: &'static str = ".local/share/acyclic/stores";

/// What `blake3::hash` makes of bytes.
pub uninterp spec fn blake3_of(bytes: Seq<u8>) -> Seq<u8>;

/// `blake3::hash`: a digest of 32 bytes that depends on the bytes alone.
#[verifier::external_body]
fn blake3_hash(bytes: &[u8]) -> (r: [u8; 32])
    ensures
        r@ == blake3_of(bytes@),
{
    *blake3::hash(bytes).as_bytes()
}

/// The layout of one repository's store.
#[derive(Debug)]
pub struct StorePaths {
    pub root: HostPath,
}

/// The name of a repository's store: the beginning of the hexadecimal digest of
/// its path.
pub open spec fn store_name(repo: Seq<u8>) -> Seq<char> {
    hex_of(blake3_of(repo).take(8))
}

/// The directory that stores are in.
pub open spec fn stores_dir(stores_root: Option<Seq<u8>>, home: Option<Seq<u8>>) -> Option<Seq<u8>> {
    match (stores_root, home) {
        (Some(dir), _) => Some(dir),
        (None, Some(home)) => Some(joined(home, encode_utf8(STORES_BELOW_HOME@))),
        (None, None) => None,
    }
}

/// The bytes of an optional path.
pub open spec fn opt_bytes(o: Option<&HostPath>) -> Option<Seq<u8>> {
    match o {
        Some(p) => Some(p@),
        None => None,
    }
}

/// The name of a repository's store, from the digest of its path: the first
/// sixteen hexadecimal digits.
pub fn short_name(digest: &[u8; 32]) -> (r: String)
    ensures
        r@ == hex_of(digest@.take(8)),
{
    let head = crate::path::copy_range(digest.as_slice(), 0, 8);
    assert(head@ =~= digest@.take(8));
    bytes_hex(head.as_slice())
}

impl StorePaths {
    /// The store of a repository, whose path is given in full. Stores are where
    /// the settings say, or below the user's home.
    pub fn for_repo(
        canonical: &HostPath,
        stores_root: Option<&HostPath>,
        home: Option<&HostPath>,
    ) -> (r: Result<StorePaths, EngineError>)
        ensures
            match (r, stores_dir(opt_bytes(stores_root), opt_bytes(home))) {
                (Ok(paths), Some(dir)) => paths.root@ == joined(
                    dir,
                    encode_utf8(store_name(canonical@)),
                ),
                (Err(EngineError::Store(message)), None) => message@ == "HOME is not set"@,
                _ => false,
            },
    {
        let base = match stores_root {
            Some(dir) => dir.clone(),
            None => match home {
                Some(home) => home.join(STORES_BELOW_HOME),
                None => {
                    return Err(EngineError::Store("HOME is not set".to_owned()));
                },
            },
        };
        let digest = blake3_hash(canonical.bytes.as_slice());
        let short = short_name(&digest);
        Ok(StorePaths { root: base.join(short.as_str()) })
    }

    /// Where objects are.
    pub fn object_store(&self) -> (r: HostPath)
        ensures
            r@ == joined(self.root@, encode_utf8("store"@)),
    {
        self.root.join("store")
    }

    /// Where the index is.
    pub fn index_db(&self) -> (r: HostPath)
        ensures
            r@ == joined(self.root@, encode_utf8("index.db"@)),
    {
        self.root.join("index.db")
    }

    /// Where the daemon listens.
    pub fn socket(&self) -> (r: HostPath)
        ensures
            r@ == joined(self.root@, encode_utf8("daemon.sock"@)),
    {
        self.root.join("daemon.sock")
    }

    /// Where the daemon's process is noted.
    pub fn pidfile(&self) -> (r: HostPath)
        ensures
            r@ == joined(self.root@, encode_utf8("daemon.pid"@)),
    {
        self.root.join("daemon.pid")
    }

    /// Where a rewind under way is noted.
    pub fn rewind_journal(&self) -> (r: HostPath)
        ensures
            r@ == joined(self.root@, encode_utf8("rewind-journal.json"@)),
    {
        self.root.join("rewind-journal.json")
    }

    /// Where trees that were rewound away go.
    pub fn trash(&self) -> (r: HostPath)
        ensures
            r@ == joined(self.root@, encode_utf8("trash"@)),
    {
        self.root.join("trash")
    }

    /// Where the store's record of itself is.
    pub fn meta(&self) -> (r: HostPath)
        ensures
            r@ == joined(self.root@, encode_utf8("meta.json"@)),
    {
        self.root.join("meta.json")
    }

    /// Whether a store may be made here: not where one is.
    pub fn may_init(&self, exists: bool) -> (r: Result<(), EngineError>)
        ensures
            match r {
                Ok(_) => !exists,
                Err(EngineError::Store(message)) => exists && message@
                    == "store already initialized at "@ + lossy_text(self.root@),
                Err(_) => false,
            },
    {
        if exists {
            let mut message = "store already initialized at ".to_owned();
            message.append(self.root.display().as_str());
            return Err(EngineError::Store(message));
        }
        Ok(())
    }

    /// What is said where there is no store here.
    pub fn missing(&self, error: &str) -> (r: EngineError)
        ensures
            r matches EngineError::Store(message) && message@ == "no store at "@ + lossy_text(
                self.root@,
            ) + " ("@ + error@ + "); run init first"@,
    {
        let mut message = "no store at ".to_owned();
        message.append(self.root.display().as_str());
        message.append(" (");
        message.append(error);
        message.append("); run init first");
        EngineError::Store(message)
    }
}

/// Whether a store of a schema can be opened.
pub fn check_schema(schema: u32) -> (r: Result<(), EngineError>)
    ensures
        match r {
            Ok(_) => schema == STORE_SCHEMA,
            Err(EngineError::Store(message)) => schema != STORE_SCHEMA && message@
                == "unsupported store schema "@ + decimal_nat(schema as nat),
            Err(_) => false,
        },
{
    if schema != STORE_SCHEMA {
        let mut message = "unsupported store schema ".to_owned();
        push_nat(&mut message, schema as u64);
        return Err(EngineError::Store(message));
    }
    Ok(())
}

} // verus!
