//! Which uploads a written file is handed to.
use vstd::prelude::*;
use vstd::string::*;
use crate::config::Config;
use crate::table::{contains_text, occurs};
use crate::text::{pieces, split_text, texts, lemma_pieces_nonempty};

verus! {

/// The text in lower case, as `str::to_lowercase` writes it.
pub uninterp spec fn lowercased(text: Seq<char>) -> Seq<char>;

/// `str::to_lowercase`.
#[verifier::external_body]
pub(crate) fn lowercase(text: &str) -> (lower: String)
    ensures
        lower@ == lowercased(text@),
{
    text.to_lowercase()
}

/// One upload target, as configured.
#[derive(Clone, Debug)]
pub struct Upload {
    pub active: bool,
    /// The time limit in seconds, as it is handed to the transfer program.
    pub timeout: String,
    pub protocol: String,
    pub server: String,
    pub path: String,
    pub user: String,
    pub key: String,
    pub pubkey: String,
    /// The groups that are uploaded; empty for no restriction.
    pub included: Vec<String>,
    /// The groups that are not uploaded.
    pub excluded: Vec<String>,
}

/// The group that a file belongs to: what stands before the first underscore of its name,
/// the name being what follows the last slash of the path.
pub open spec fn file_prefix(filepath: Seq<char>) -> Seq<char> {
    pieces(pieces(filepath, '/').last(), '_')[0]
}

/// Whether an upload takes the files of a group. With neither list, every group is taken
/// but the residue group and the default group.
pub open spec fn accepts(upload: Upload, prefix: Seq<char>, residue: Seq<char>, default: Seq<char>)
    -> bool {
    let included = texts(upload.included@);
    let excluded = texts(upload.excluded@);
    if included.len() == 0 && excluded.len() == 0 {
        prefix != residue && prefix != default
    } else if included.len() == 0 {
        !occurs(excluded, prefix)
    } else if excluded.len() == 0 {
        occurs(included, prefix)
    } else {
        occurs(included, prefix) && !occurs(excluded, prefix)
    }
}

/// The places of the uploads among the first `count` that are active and take the group.
pub open spec fn due_among(config: Config, prefix: Seq<char>, count: nat) -> Seq<usize>
    decreases count,
{
    if count == 0 {
        Seq::empty()
    } else {
        let before = due_among(config, prefix, (count - 1) as nat);
        let upload = config.uploads@[count - 1];
        if upload.active && accepts(upload, prefix, config.filter.residue@, config.split.default@) {
            before.push((count - 1) as usize)
        } else {
            before
        }
    }
}

/// The arguments of the transfer over SSH.
pub open spec fn ssh_arguments(upload: Upload, filepath: Seq<char>) -> Seq<Seq<char>> {
    seq![
        "-m"@,
        upload.timeout@,
        "-u"@,
        upload.user@ + ":"@,
        "--key"@,
        upload.key@,
        "--pubkey"@,
        upload.pubkey@,
        "-T"@,
        filepath,
        upload_address(upload),
    ]
}

/// The arguments of the transfer over HTTP.
pub open spec fn http_arguments(upload: Upload, filepath: Seq<char>) -> Seq<Seq<char>> {
    seq![
        "-m"@,
        upload.timeout@,
        "-d"@,
        "@"@ + filepath,
        "-H"@,
        "Content-Type: application/xml"@,
        upload_address(upload),
    ]
}

/// The address that a file is sent to.
pub open spec fn upload_address(upload: Upload) -> Seq<char> {
    lowercased(upload.protocol@) + "://"@ + upload.server@ + upload.path@ + "/"@
}

/// The arguments that the transfer program is called with; none for a protocol that is
/// not one of `sftp`, `scp`, `https` and `http`.
pub open spec fn transfer_arguments(upload: Upload, filepath: Seq<char>) -> Option<Seq<Seq<char>>> {
    let protocol = lowercased(upload.protocol@);
    if protocol == "sftp"@ || protocol == "scp"@ {
        Some(ssh_arguments(upload, filepath))
    } else if protocol == "https"@ || protocol == "http"@ {
        Some(http_arguments(upload, filepath))
    } else {
        None
    }
}

/// The group that a file belongs to.
pub fn prefix_of(filepath: &str) -> (prefix: String)
    ensures
        prefix@ == file_prefix(filepath@),
{
    proof {
        lemma_pieces_nonempty(filepath@, '/');
    }
    let mut path_split = split_text(filepath, '/');
    let filename = path_split.pop().unwrap();
    proof {
        assert(filename@ == pieces(filepath@, '/').last());
        lemma_pieces_nonempty(filename@, '_');
    }
    let mut filename_split = split_text(filename.as_str(), '_');
    let prefix = filename_split.swap_remove(0);
    proof {
        assert(prefix@ == pieces(filename@, '_')[0]);
    }
    prefix
}

impl Upload {
    /// Whether the upload takes the files of the group `prefix`.
    pub fn accepts(&self, prefix: &String, residue: &String, default: &String) -> (accepted: bool)
        ensures
            accepted == accepts(*self, prefix@, residue@, default@),
    {
        if self.included.len() == 0 && self.excluded.len() == 0 {
            *prefix != *residue && *prefix != *default
        } else if self.included.len() == 0 {
            !contains_text(&self.excluded, prefix)
        } else if self.excluded.len() == 0 {
            contains_text(&self.included, prefix)
        } else {
            contains_text(&self.included, prefix) && !contains_text(&self.excluded, prefix)
        }
    }

    /// The arguments that the transfer program is called with to send the file.
    pub fn arguments(&self, filepath: &str) -> (arguments: Option<Vec<String>>)
        ensures
            match arguments {
                Some(list) => transfer_arguments(*self, filepath@) == Some(texts(list@)),
                None => transfer_arguments(*self, filepath@) is None,
            },
    {
        let protocol = lowercase(self.protocol.as_str());
        let mut address = protocol.clone();
        address.append("://");
        address.append(self.server.as_str());
        address.append(self.path.as_str());
        address.append("/");
        let mut list: Vec<String> = Vec::new();
        if protocol == "sftp".to_owned() || protocol == "scp".to_owned() {
            let mut user = self.user.clone();
            user.append(":");
            list.push("-m".to_owned());
            list.push(self.timeout.clone());
            list.push("-u".to_owned());
            list.push(user);
            list.push("--key".to_owned());
            list.push(self.key.clone());
            list.push("--pubkey".to_owned());
            list.push(self.pubkey.clone());
            list.push("-T".to_owned());
            list.push(filepath.to_owned());
            list.push(address);
            proof {
                assert(texts(list@) =~= ssh_arguments(*self, filepath@));
            }
            Some(list)
        } else if protocol == "https".to_owned() || protocol == "http".to_owned() {
            let mut data = "@".to_owned();
            data.append(filepath);
            list.push("-m".to_owned());
            list.push(self.timeout.clone());
            list.push("-d".to_owned());
            list.push(data);
            list.push("-H".to_owned());
            list.push("Content-Type: application/xml".to_owned());
            list.push(address);
            proof {
                assert(texts(list@) =~= http_arguments(*self, filepath@));
            }
            Some(list)
        } else {
            None
        }
    }
}

/// The places, in the configuration, of the uploads that the file is handed to: those that
/// are active and take the group of the file.
pub fn due_uploads(config: &Config, filepath: &String) -> (due: Vec<usize>)
    ensures
        due@ == due_among(*config, file_prefix(filepath@), config.uploads@.len()),
{
    let prefix = prefix_of(filepath.as_str());
    let mut due: Vec<usize> = Vec::new();
    let mut i: usize = 0;
    while i < config.uploads.len()
        invariant
            i <= config.uploads.len(),
            prefix@ == file_prefix(filepath@),
            due@ == due_among(*config, prefix@, i as nat),
        decreases config.uploads.len() - i,
    {
        let upload = &config.uploads[i];
        if upload.active && upload.accepts(&prefix, &config.filter.residue, &config.split.default) {
            due.push(i);
        }
        i += 1;
    }
    due
}

} // verus!
