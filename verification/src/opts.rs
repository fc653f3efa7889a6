use vstd::prelude::*;

verus! {

/// The options of a run: the size of the cluster, the number of clients and
/// of requests per client, how much to log, whether this node is a client,
/// and the mode (`local`, `dist`, `check` or `clean`).
#[derive(Clone, Debug)]
pub struct Opts {
    pub n_servers: i32,
    pub n_clients: i32,
    pub n_request: i64,
    pub verbosity: usize,
    pub isclient: bool,
    pub mode: String,
}

/// Whether `mode` is one of the modes a run knows: `local`, `dist`, `check`
/// or `clean`.
pub fn is_known_mode(mode: &String) -> (r: bool)
    ensures
        r == (mode@ == "local"@ || mode@ == "dist"@ || mode@ == "check"@ || mode@ == "clean"@),
{
    let local = String::from_str("local");
    let dist = String::from_str("dist");
    let check = String::from_str("check");
    let clean = String::from_str("clean");
    *mode == local || *mode == dist || *mode == check || *mode == clean
}

} // verus!
