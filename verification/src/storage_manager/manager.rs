use crate::config::cfg::Cfg;
use crate::text::push_text;
use vstd::prelude::*;

verus! {

/// The path of a file of the download directory: the directory, a slash,
/// and the name of the file.
pub open spec fn path_in(directory: Seq<char>, name: Seq<char>) -> Seq<char> {
    directory + "/"@ + name
}

/// The path of the file that a torrent is written to.
pub fn file_path(config: &Cfg, name: &str) -> (path: String)
    ensures
        path@ == path_in(config.download_directory@, name@),
{
    let mut path = String::new();
    push_text(&mut path, config.download_directory.as_str());
    push_text(&mut path, "/");
    push_text(&mut path, name);
    assert(path@ =~= path_in(config.download_directory@, name@));
    path
}

} // verus!
