//! Where a node keeps its consensus log.

use vstd::prelude::*;

verus! {

/// Data directory of a node that names none.
pub const DEFAULT_DATA_DIR: &'static str = "/var/lib/ferrosa";

/// Does a path end with a separator?
pub open spec fn ends_with_separator(path: Seq<char>) -> bool {
    path.len() > 0 && path.last() == '/'
}

/// A path below a directory: an absolute part stands alone, and a separator is
/// put between the two unless one is there.
pub open spec fn joined(base: Seq<char>, part: Seq<char>) -> Seq<char> {
    if part.len() > 0 && part[0] == '/' {
        part
    } else if base.len() == 0 || ends_with_separator(base) {
        base + part
    } else {
        base + "/"@ + part
    }
}

/// A path below a directory.
pub fn join_path(base: &str, part: &str) -> (path: String)
    ensures
        path@ == joined(base@, part@),
{
    let n: usize = part.unicode_len();
    if n > 0 && part.get_char(0) == '/' {
        return part.to_owned();
    }
    let m: usize = base.unicode_len();
    let mut path = base.to_owned();
    if m > 0 && base.get_char(m - 1) != '/' {
        path.append("/");
    }
    path.append(part);
    path
}

/// The log directory of a data center below the base directory.
pub fn raft_log_dir_for_dc(base: &str, dc_name: &str) -> (dir: String)
    ensures
        dir@ == joined(base@, dc_name@),
{
    join_path(base, dc_name)
}

/// The log directory that the settings name: below the configured directory,
/// or else below `raft` in the configured data directory.
pub open spec fn configured_dir(
    raft_data_dir: Option<Seq<char>>,
    data_dir: Option<Seq<char>>,
    data_center: Seq<char>,
) -> Option<Seq<char>> {
    match raft_data_dir {
        Some(dir) => Some(joined(dir, data_center)),
        None => match data_dir {
            Some(dir) => Some(joined(joined(dir, "raft"@), data_center)),
            None => None,
        },
    }
}

/// The log directory that the settings name, if they name one.
pub fn configured_raft_dir(
    raft_data_dir: Option<&str>,
    data_dir: Option<&str>,
    data_center: &str,
) -> (dir: Option<String>)
    ensures
        crate::raft::text_view(dir) == configured_dir(
            crate::raft::str_view(raft_data_dir),
            crate::raft::str_view(data_dir),
            data_center@,
        ),
{
    match raft_data_dir {
        Some(dir) => Some(raft_log_dir_for_dc(dir, data_center)),
        None => match data_dir {
            Some(dir) => {
                let base = join_path(dir, "raft");
                Some(raft_log_dir_for_dc(base.as_str(), data_center))
            },
            None => None,
        },
    }
}

/// The log directory: the one that the settings name, or else the default one.
pub fn resolve_raft_dir(
    raft_data_dir: Option<&str>,
    data_dir: Option<&str>,
    data_center: &str,
) -> (dir: String)
    ensures
        dir@ == match configured_dir(
            crate::raft::str_view(raft_data_dir),
            crate::raft::str_view(data_dir),
            data_center@,
        ) {
            Some(d) => d,
            None => joined(joined(DEFAULT_DATA_DIR@, "raft"@), data_center@),
        },
{
    match configured_raft_dir(raft_data_dir, data_dir, data_center) {
        Some(dir) => dir,
        None => {
            let base = join_path(DEFAULT_DATA_DIR, "raft");
            raft_log_dir_for_dc(base.as_str(), data_center)
        },
    }
}

/// Startup and runtime agree: where the settings name a directory, it is the
/// one that the node uses.
pub proof fn named_directory_is_used(
    raft_data_dir: Option<Seq<char>>,
    data_dir: Option<Seq<char>>,
    data_center: Seq<char>,
)
    ensures
        configured_dir(raft_data_dir, data_dir, data_center) is None <==> raft_data_dir is None
            && data_dir is None,
        data_dir is None && raft_data_dir is None ==> configured_dir(
            raft_data_dir,
            Some(DEFAULT_DATA_DIR@),
            data_center,
        ) == Some(joined(joined(DEFAULT_DATA_DIR@, "raft"@), data_center)),
{
}

/// Each data center has a directory of its own: two relative names never share
/// one below the same base.
pub proof fn data_centers_do_not_share_a_directory(base: Seq<char>, a: Seq<char>, b: Seq<char>)
    requires
        a.len() > 0,
        b.len() > 0,
        a[0] != '/',
        b[0] != '/',
        joined(base, a) == joined(base, b),
    ensures
        a == b,
{
    let p = joined(base, a);
    let k = p.len() - a.len();
    assert(a =~= p.skip(k));
    assert(b =~= p.skip(k));
}

/// Longest membership marker that is read back, in bytes.
pub const MAX_CLUSTER_MEMBER_MARKER_BYTES: u64 = 4096;

/// Why a membership marker cannot be used.
#[derive(Debug, PartialEq, Eq)]
pub enum MarkerError {
    /// It declares more bytes than are read back.
    TooLong { declared_len: u64 },
    /// It holds less than it declared.
    Short,
    /// It holds more than it declared.
    Grew,
    /// The copy is not as long as what it copies.
    LengthMismatch,
}

/// The message of an error on the marker.
pub open spec fn marker_message(e: MarkerError) -> Seq<char> {
    match e {
        MarkerError::TooLong { declared_len } => "cluster membership marker is "@
            + crate::text::decimal_text(declared_len as nat) + " bytes; maximum is 4096"@,
        MarkerError::Short => "failed to fill whole buffer"@,
        MarkerError::Grew => "cluster membership marker grew beyond its validated bound"@,
        MarkerError::LengthMismatch => "staged cluster membership marker length mismatch"@,
    }
}

impl MarkerError {
    /// The message of this error.
    pub fn message(&self) -> (m: String)
        ensures
            m@ == marker_message(*self),
    {
        match self {
            MarkerError::TooLong { declared_len } => {
                let mut m = "cluster membership marker is ".to_owned();
                crate::text::append_decimal(&mut m, *declared_len);
                m.append(" bytes; maximum is 4096");
                m
            },
            MarkerError::Short => "failed to fill whole buffer".to_owned(),
            MarkerError::Grew => "cluster membership marker grew beyond its validated bound".to_owned(),
            MarkerError::LengthMismatch => "staged cluster membership marker length mismatch".to_owned(),
        }
    }
}

/// May a marker of this length be read?
pub fn check_marker_length(declared_len: u64) -> (r: Result<(), MarkerError>)
    ensures
        r == (if declared_len > MAX_CLUSTER_MEMBER_MARKER_BYTES {
            Err(MarkerError::TooLong { declared_len })
        } else {
            Ok(())
        }),
{
    if declared_len > MAX_CLUSTER_MEMBER_MARKER_BYTES {
        Err(MarkerError::TooLong { declared_len })
    } else {
        Ok(())
    }
}

/// A marker as it was read: exactly as long as declared.
pub fn accept_marker(declared_len: u64, content: &[u8]) -> (r: Result<Vec<u8>, MarkerError>)
    ensures
        match r {
            Ok(v) => declared_len <= MAX_CLUSTER_MEMBER_MARKER_BYTES && content@.len() == declared_len
                && v@ == content@,
            Err(e) => if declared_len > MAX_CLUSTER_MEMBER_MARKER_BYTES {
                e == (MarkerError::TooLong { declared_len })
            } else if content@.len() < declared_len {
                e == MarkerError::Short
            } else {
                e == MarkerError::Grew && content@.len() > declared_len
            },
        },
{
    match check_marker_length(declared_len) {
        Err(e) => Err(e),
        Ok(()) => {
            if (content.len() as u64) < declared_len {
                Err(MarkerError::Short)
            } else if content.len() as u64 > declared_len {
                Err(MarkerError::Grew)
            } else {
                Ok(crate::text::copy_bytes(content))
            }
        },
    }
}

/// May a staged marker replace the live one?
pub fn check_staged_marker(saved: &[u8], staged_len: u64) -> (r: Result<(), MarkerError>)
    ensures
        r == (if staged_len == saved@.len() {
            Ok(())
        } else {
            Err(MarkerError::LengthMismatch)
        }),
{
    if staged_len == saved.len() as u64 {
        Ok(())
    } else {
        Err(MarkerError::LengthMismatch)
    }
}

/// A part that begins with a separator stands alone. Any other is put behind the base, with
/// one separator between them where the base is not empty and does not end with one.
pub proof fn parts_are_put_below_the_base(base: Seq<char>, part: Seq<char>)
    ensures
        part.len() > 0 && part[0] == '/' ==> joined(base, part) == part,
        !(part.len() > 0 && part[0] == '/') && base.len() == 0 ==> joined(base, part) == part,
        !(part.len() > 0 && part[0] == '/') && base.len() > 0 && base.last() == '/' ==> joined(
            base,
            part,
        ) == base + part,
        !(part.len() > 0 && part[0] == '/') && base.len() > 0 && base.last() != '/' ==> joined(
            base,
            part,
        ) == base + seq!['/'] + part,
{
    reveal_strlit("/");
    assert("/"@ =~= seq!['/']);
    assert(base.len() == 0 ==> base + part =~= part);
}

/// The log of a data center is kept in the directory of its name below the configured
/// directory for logs, or else below `raft` in the configured data directory.
pub proof fn logs_are_kept_where_configured(dir: Seq<char>, data: Option<Seq<char>>, dc: Seq<char>)
    ensures
        configured_dir(Some(dir), data, dc) == Some(joined(dir, dc)),
        configured_dir(None, Some(dir), dc) == Some(joined(joined(dir, "raft"@), dc)),
        configured_dir(None, None, dc) is None,
        DEFAULT_DATA_DIR@ == "/var/lib/ferrosa"@,
        MAX_CLUSTER_MEMBER_MARKER_BYTES == 4096,
{
}

/// An error on the marker says what is wrong with it, and of one that is too long how long
/// it is.
pub proof fn marker_errors_say_what_is_wrong(n: u64)
    ensures
        marker_message(MarkerError::TooLong { declared_len: n }) == "cluster membership marker is "@
            + crate::text::decimal_text(n as nat) + " bytes; maximum is 4096"@,
        marker_message(MarkerError::Short) == "failed to fill whole buffer"@,
        marker_message(MarkerError::Grew)
            == "cluster membership marker grew beyond its validated bound"@,
        marker_message(MarkerError::LengthMismatch)
            == "staged cluster membership marker length mismatch"@,
{
}

} // verus!
