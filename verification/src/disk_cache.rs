//! The on-disk layout of the persisted expression cache.
//!
//! An expression is stored as `<root>/<16 hex digits of its hash>.ast`:
//! a 4-byte little-endian format version followed by the expression's
//! binary form. Machine code is process-local, so the expression is the
//! cache's source of truth and is recompiled after loading. Reading and
//! writing the files is left to the caller; this module decides where an
//! entry lives, what its bytes are, and what bytes are accepted back.
use crate::expr::Expr;
use crate::hash::{expr_hash, hash_bytes, SEED};
use crate::serial::{
    decode_expr, expr_bytes, lemma_decode_of_encode, read_expr, u32_at, u32_le, write_expr,
    DecodeError,
};
use crate::text::{hex16, push_char, push_hex16};
use vstd::prelude::*;
use vstd::string::*;

verus! {

/// The format version stamped at the start of every cache file.
pub const FORMAT_VERSION: u32 = 1u32;

/// Why no default cache directory could be chosen.
#[derive(Debug, PartialEq, Eq, Structural)]
pub enum CacheDirError {
    /// None of `ELWORTHY_CACHE_DIR`, `XDG_CACHE_HOME` and `HOME` is set.
    NotFound,
}

/// Why the bytes of a cache file are not an entry.
#[derive(Debug, PartialEq, Eq, Structural)]
pub enum EntryError {
    /// The file is shorter than its format version.
    Truncated,
    /// The file was written under another format version.
    StaleVersion,
    /// The expression after the version is malformed.
    Malformed(DecodeError),
}

/// `base` joined with the relative path `rel`: a `/` goes between them
/// unless `base` is empty or already ends in one.
pub open spec fn path_join(base: Seq<char>, rel: Seq<char>) -> Seq<char> {
    if base.len() == 0 {
        rel
    } else if base.last() == '/' {
        base + rel
    } else {
        base.push('/') + rel
    }
}

/// Join `base` and the relative path `rel`.
pub fn join_path(base: &str, rel: &str) -> (r: String)
    ensures
        r@ == path_join(base@, rel@),
{
    let n = base.unicode_len();
    let mut s = String::from_str(base);
    if n > 0 && base.get_char(n - 1) != '/' {
        push_char(&mut s, '/');
    }
    s.append(rel);
    proof {
        assert(s@ =~= path_join(base@, rel@));
    }
    s
}

/// The default cache root: `$ELWORTHY_CACHE_DIR` as given, else
/// `$XDG_CACHE_HOME/elworthy`, else `$HOME/.cache/elworthy`. The
/// arguments are the values of those variables, `None` where unset.
pub open spec fn default_root(
    elworthy_cache_dir: Option<Seq<char>>,
    xdg_cache_home: Option<Seq<char>>,
    home: Option<Seq<char>>,
) -> Option<Seq<char>> {
    match elworthy_cache_dir {
        Some(p) => Some(p),
        None => match xdg_cache_home {
            Some(p) => Some(path_join(p, seq!['e', 'l', 'w', 'o', 'r', 't', 'h', 'y'])),
            None => match home {
                Some(h) => Some(
                    path_join(
                        h,
                        seq!['.', 'c', 'a', 'c', 'h', 'e', '/', 'e', 'l', 'w', 'o', 'r', 't', 'h', 'y'],
                    ),
                ),
                None => None,
            },
        },
    }
}

/// The name of the file that holds the expression with hash `h`.
pub open spec fn entry_file_name(h: u64) -> Seq<char> {
    hex16(h) + seq!['.', 'a', 's', 't']
}

/// The bytes of a cache file for `e`.
pub open spec fn entry_bytes(e: Expr) -> Seq<u8> {
    u32_le(FORMAT_VERSION) + expr_bytes(e)
}

/// The expression a cache file holds.
pub open spec fn decode_entry_spec(s: Seq<u8>) -> Result<Expr, EntryError> {
    if s.len() < 4 {
        Err(EntryError::Truncated)
    } else if u32_at(s, 0) != FORMAT_VERSION {
        Err(EntryError::StaleVersion)
    } else {
        match decode_expr(s, 4) {
            Ok((e, _)) => Ok(e),
            Err(err) => Err(EntryError::Malformed(err)),
        }
    }
}

/// Whether a file name carries the `ast` extension: it ends in `.ast`
/// after a nonempty stem, as `Path::extension` reads names.
pub open spec fn is_entry_name(name: Seq<char>) -> bool {
    name.len() >= 5 && name.subrange(name.len() - 4, name.len() as int) == seq![
        '.',
        'a',
        's',
        't',
    ]
}

/// A disk-backed expression cache rooted at a directory.
pub struct DiskCache {
    root: String,
}

impl DiskCache {
    /// The cache rooted at `root`. The directory is expected to exist.
    pub fn new(root: String) -> (r: DiskCache)
        ensures
            r.root_path() == root@,
    {
        DiskCache { root }
    }

    /// The root directory.
    pub closed spec fn root_path(&self) -> Seq<char> {
        self.root@
    }

    /// The cache at the default location, chosen from the values of
    /// `ELWORTHY_CACHE_DIR`, `XDG_CACHE_HOME` and `HOME` (`None` where
    /// unset), in that order of preference. The caller creates the
    /// directory.
    pub fn open_default(
        elworthy_cache_dir: Option<String>,
        xdg_cache_home: Option<String>,
        home: Option<String>,
    ) -> (r: Result<DiskCache, CacheDirError>)
        ensures
            match default_root(
                match elworthy_cache_dir {
                    Some(p) => Some(p@),
                    None => None,
                },
                match xdg_cache_home {
                    Some(p) => Some(p@),
                    None => None,
                },
                match home {
                    Some(p) => Some(p@),
                    None => None,
                },
            ) {
                Some(root) => r matches Ok(c) && c.root_path() == root,
                None => r == Err::<DiskCache, CacheDirError>(CacheDirError::NotFound),
            },
    {
        proof {
            reveal_strlit("elworthy");
            reveal_strlit(".cache/elworthy");
        }
        if let Some(p) = elworthy_cache_dir {
            return Ok(DiskCache { root: p });
        }
        if let Some(p) = xdg_cache_home {
            return Ok(DiskCache { root: join_path(p.as_str(), "elworthy") });
        }
        if let Some(h) = home {
            return Ok(DiskCache { root: join_path(h.as_str(), ".cache/elworthy") });
        }
        Err(CacheDirError::NotFound)
    }

    /// The root directory of the cache.
    pub fn root(&self) -> (r: &str)
        ensures
            r@ == self.root_path(),
    {
        self.root.as_str()
    }

    /// Where the entry for the hash `h` lives, whether or not it exists.
    pub fn path_for_hash(&self, h: u64) -> (r: String)
        ensures
            r@ == path_join(self.root_path(), entry_file_name(h)),
    {
        let mut name = String::new();
        push_hex16(&mut name, h);
        push_char(&mut name, '.');
        push_char(&mut name, 'a');
        push_char(&mut name, 's');
        push_char(&mut name, 't');
        proof {
            assert(name@ =~= entry_file_name(h));
        }
        join_path(self.root.as_str(), name.as_str())
    }

    /// Where the entry for `expr` lives: the file named after its hash.
    pub fn path_for(&self, expr: &Expr) -> (r: String)
        ensures
            r@ == path_join(self.root_path(), entry_file_name(hash_bytes(SEED, expr_bytes(*expr)))),
    {
        self.path_for_hash(expr_hash(expr))
    }
}

/// The bytes to store for `expr`: the format version, then the expression.
pub fn encode_entry(expr: &Expr) -> (r: Vec<u8>)
    ensures
        r@ == entry_bytes(*expr),
{
    let mut out: Vec<u8> = Vec::new();
    let v = FORMAT_VERSION;
    out.push(v as u8);
    out.push((v >> 8u32) as u8);
    out.push((v >> 16u32) as u8);
    out.push((v >> 24u32) as u8);
    write_expr(&mut out, expr);
    proof {
        assert(out@ =~= entry_bytes(*expr));
    }
    out
}

/// The expression stored in the bytes of a cache file. A file written
/// under another format version is refused; bytes after the expression
/// are ignored.
pub fn decode_entry(bytes: &[u8]) -> (r: Result<Expr, EntryError>)
    ensures
        r == decode_entry_spec(bytes@),
{
    if bytes.len() < 4 {
        return Err(EntryError::Truncated);
    }
    let v = (bytes[0] as u32) | ((bytes[1] as u32) << 8u32) | ((bytes[2] as u32) << 16u32) | ((
    bytes[3] as u32) << 24u32);
    if v != FORMAT_VERSION {
        return Err(EntryError::StaleVersion);
    }
    match read_expr(bytes, 4) {
        Ok((e, _)) => Ok(e),
        Err(err) => Err(EntryError::Malformed(err)),
    }
}

/// Whether a file name is that of a cache entry.
pub fn is_entry_file_name(name: &str) -> (r: bool)
    ensures
        r == is_entry_name(name@),
{
    let n = name.unicode_len();
    if n < 5 {
        return false;
    }
    let r = name.get_char(n - 4) == '.' && name.get_char(n - 3) == 'a' && name.get_char(n - 2) == 's'
        && name.get_char(n - 1) == 't';
    proof {
        let tail = name@.subrange(n - 4, n as int);
        if r {
            assert(tail =~= seq!['.', 'a', 's', 't']);
        } else {
            if tail == seq!['.', 'a', 's', 't'] {
                assert(tail[0] == name@[n - 4]);
                assert(tail[1] == name@[n - 3]);
                assert(tail[2] == name@[n - 2]);
                assert(tail[3] == name@[n - 1]);
            }
        }
    }
    r
}

/// A stored entry reads back as the expression that was stored.
pub proof fn lemma_entry_roundtrip(e: Expr)
    ensures
        decode_entry_spec(entry_bytes(e)) == Ok::<Expr, EntryError>(e),
{
    let s = entry_bytes(e);
    assert(u32_le(FORMAT_VERSION) + expr_bytes(e) + Seq::<u8>::empty() =~= s);
    lemma_decode_of_encode(e, u32_le(FORMAT_VERSION), Seq::<u8>::empty());
    assert(u32_at(s, 0) == FORMAT_VERSION) by {
        assert((1u32 as u8) == 1u8 && ((1u32 >> 8u32) as u8) == 0u8 && ((1u32 >> 16u32) as u8) == 0u8
            && ((1u32 >> 24u32) as u8) == 0u8) by (bit_vector);
        assert(s[0] == 1u8 && s[1] == 0u8 && s[2] == 0u8 && s[3] == 0u8);
        assert(((1u8 as u32) | ((0u8 as u32) << 8u32) | ((0u8 as u32) << 16u32) | ((0u8 as u32) << 24u32))
            == 1u32) by (bit_vector);
    }
}

/// Distinct hashes are stored under distinct file names.
pub proof fn lemma_entry_names_distinct(h1: u64, h2: u64)
    requires
        entry_file_name(h1) == entry_file_name(h2),
    ensures
        h1 == h2,
{
    assert(hex16(h1) =~= entry_file_name(h1).subrange(0, 16));
    assert(hex16(h2) =~= entry_file_name(h2).subrange(0, 16));
    crate::text::lemma_hex16_injective(h1, h2);
}

} // verus!
