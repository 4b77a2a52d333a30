//! The rules of kernel launch: which kernel to run, which of the
//! discovered definitions to use, and the connection descriptor to write.

use vstd::prelude::*;
use crate::model::fresh_id;

verus! {

/// How to reach a kernel process: address, the five channel ports, the
/// signing key and scheme, and the kernel's name.
#[derive(Clone, Debug)]
pub struct ConnectionDescriptor {
    pub ip: String,
    pub shell_port: u16,
    pub iopub_port: u16,
    pub stdin_port: u16,
    pub control_port: u16,
    pub hb_port: u16,
    pub key: String,
    pub signature_scheme: String,
    pub kernel_name: Option<String>,
}

/// Why a kernel could not be launched.
#[derive(Debug)]
pub enum LaunchError {
    /// No kernel definition is installed.
    NoKernelspecs,
    /// No installed definition has this name; `available` lists those that are.
    KernelspecNotFound { name: String, available: Vec<String> },
    /// Five distinct free ports could not be had.
    NoFreePorts,
}

/// The kernel to run: the one named, else python3.
pub fn kernel_name_or_default(name: Option<&str>) -> (r: String)
    ensures
        name matches Some(n) ==> r@ == n@,
        name is None ==> r@ == "python3"@,
{
    match name {
        Some(n) => String::from_str(n),
        None => String::from_str("python3"),
    }
}

/// Whether position `i` holds the first occurrence of its name.
pub open spec fn is_first_occurrence(names: Seq<String>, i: int) -> bool {
    forall|j: int| 0 <= j < i ==> names[j]@ != names[i]@
}

/// Positions of the kernel definitions to keep out of those discovered, in
/// the order of discovery: the first of each name.
pub fn first_occurrences(names: &Vec<String>) -> (r: Vec<usize>)
    ensures
        forall|a: int, b: int| 0 <= a < b < r@.len() ==> r@[a] < r@[b],
        forall|a: int| 0 <= a < r@.len() ==> r@[a] < names@.len(),
        forall|i: int|
            0 <= i < names@.len() ==> (r@.contains(i as usize) <==> is_first_occurrence(
                names@,
                i,
            )),
{
    let mut r: Vec<usize> = Vec::new();
    let mut i: usize = 0;
    while i < names.len()
        invariant
            i <= names@.len(),
            forall|a: int, b: int| 0 <= a < b < r@.len() ==> r@[a] < r@[b],
            forall|a: int| 0 <= a < r@.len() ==> r@[a] < i,
            forall|k: int|
                0 <= k < i ==> (r@.contains(k as usize) <==> is_first_occurrence(names@, k)),
        decreases names@.len() - i,
    {
        let mut j: usize = 0;
        let mut seen = false;
        while j < i
            invariant
                i < names@.len(),
                j <= i,
                seen <==> exists|m: int| 0 <= m < j && names@[m]@ == names@[i as int]@,
            decreases i - j,
        {
            if names[j].eq(&names[i]) {
                seen = true;
            }
            j = j + 1;
        }
        let ghost r0 = r@;
        if !seen {
            r.push(i);
        }
        proof {
            assert forall|k: int| 0 <= k < i + 1 implies (r@.contains(k as usize)
                <==> is_first_occurrence(names@, k)) by {
                if k < i {
                    if r@.contains(k as usize) {
                        let p = choose|p: int| 0 <= p < r@.len() && r@[p] == k as usize;
                        if p < r0.len() {
                            assert(r0[p] == k as usize);
                        }
                    }
                    if r0.contains(k as usize) {
                        let p = choose|p: int| 0 <= p < r0.len() && r0[p] == k as usize;
                        assert(r@[p] == k as usize);
                    }
                } else {
                    if !seen {
                        assert(r@[r@.len() - 1] == i);
                    } else {
                        if r@.contains(k as usize) {
                            let p = choose|p: int| 0 <= p < r@.len() && r@[p] == k as usize;
                            assert(r0[p] < i);
                        }
                    }
                }
            }
        }
        i = i + 1;
    }
    r
}

/// What looking `name` up among `names` gives: the first position with
/// that name, or, when there is none, an error listing the names.
pub open spec fn lookup_result(names: Seq<String>, name: Seq<char>, r: Result<usize, LaunchError>) -> bool {
    &&& r matches Ok(i) ==> i < names.len() && names[i as int]@ == name && forall|j: int|
        0 <= j < i ==> names[j]@ != name
    &&& r is Err <==> forall|j: int| 0 <= j < names.len() ==> names[j]@ != name
    &&& r matches Err(e) ==> e matches LaunchError::KernelspecNotFound { name: n, available }
        && n@ == name && available@.len() == names.len() && forall|j: int|
        0 <= j < names.len() ==> #[trigger] available@[j]@ == names[j]@
}

/// The position of the definition named `name`: the first with that name.
/// Fails with the names available when there is none.
pub fn find_kernelspec(names: &Vec<String>, name: &str) -> (r: Result<usize, LaunchError>)
    ensures
        lookup_result(names@, name@, r),
{
    let wanted = String::from_str(name);
    let mut i: usize = 0;
    while i < names.len()
        invariant
            i <= names@.len(),
            wanted@ == name@,
            forall|j: int| 0 <= j < i ==> names@[j]@ != name@,
        decreases names@.len() - i,
    {
        if names[i].eq(&wanted) {
            return Ok(i);
        }
        i = i + 1;
    }
    let available = names.clone();
    proof {
        assert forall|j: int| 0 <= j < names@.len() implies #[trigger] available@[j]@ == names@[j]@ by {
            assert(cloned::<String>(names@[j], available@[j]));
        }
    }
    Err(LaunchError::KernelspecNotFound { name: wanted, available })
}

/// Like `find_kernelspec`, for a first start: when nothing at all is
/// installed that is an error of its own.
pub fn select_kernelspec(names: &Vec<String>, name: &str) -> (r: Result<usize, LaunchError>)
    ensures
        names@.len() == 0 ==> r matches Err(LaunchError::NoKernelspecs),
        names@.len() > 0 ==> lookup_result(names@, name@, r),
{
    if names.len() == 0 {
        return Err(LaunchError::NoKernelspecs);
    }
    find_kernelspec(names, name)
}

/// Whether `ports` starts with five distinct ports.
pub open spec fn five_distinct(ports: Seq<u16>) -> bool {
    &&& ports.len() >= 5
    &&& forall|a: int, b: int| 0 <= a < b < 5 ==> ports[a] != ports[b]
}

/// A descriptor for a new kernel on the local host, on the first five of
/// `ports` (shell, iopub, stdin, control, heartbeat), with a fresh key and
/// HMAC-SHA256 signing. Fails unless those five ports are distinct.
pub fn new_descriptor(ports: &Vec<u16>, kernel_name: String) -> (r: Result<
    ConnectionDescriptor,
    LaunchError,
>)
    ensures
        r is Ok <==> five_distinct(ports@),
        r matches Err(e) ==> e is NoFreePorts,
        r matches Ok(d) ==> {
            &&& d.ip@ == "127.0.0.1"@
            &&& d.shell_port == ports@[0]
            &&& d.iopub_port == ports@[1]
            &&& d.stdin_port == ports@[2]
            &&& d.control_port == ports@[3]
            &&& d.hb_port == ports@[4]
            &&& d.key@.len() == 36
            &&& d.signature_scheme@ == "hmac-sha256"@
            &&& d.kernel_name == Some(kernel_name)
        },
{
    if ports.len() < 5 {
        return Err(LaunchError::NoFreePorts);
    }
    let mut a: usize = 0;
    while a < 5
        invariant
            ports@.len() >= 5,
            a <= 5,
            forall|x: int, y: int| 0 <= x < y < 5 && x < a ==> ports@[x] != ports@[y],
        decreases 5 - a,
    {
        let mut b: usize = a + 1;
        while b < 5
            invariant
                ports@.len() >= 5,
                a < b <= 5,
                a < 5,
                forall|x: int, y: int| 0 <= x < y < 5 && x < a ==> ports@[x] != ports@[y],
                forall|y: int| a < y < b ==> ports@[a as int] != ports@[y],
            decreases 5 - b,
        {
            if ports[a] == ports[b] {
                return Err(LaunchError::NoFreePorts);
            }
            b = b + 1;
        }
        a = a + 1;
    }
    Ok(ConnectionDescriptor {
        ip: String::from_str("127.0.0.1"),
        shell_port: ports[0],
        iopub_port: ports[1],
        stdin_port: ports[2],
        control_port: ports[3],
        hb_port: ports[4],
        key: fresh_id(),
        signature_scheme: String::from_str("hmac-sha256"),
        kernel_name: Some(kernel_name),
    })
}

/// A fresh, unique name for a connection file: `kernel-<id>.json`.
pub fn connection_file_name() -> (r: String)
    ensures
        exists|id: Seq<char>| id.len() == 36 && r@ == "kernel-"@ + id + ".json"@,
{
    let id = fresh_id();
    let mut r = String::from_str("kernel-");
    r.append(id.as_str());
    r.append(".json");
    r
}

/// The kernel to run again on a restart: the one the descriptor names,
/// else python3.
pub fn restart_kernel_name(d: &ConnectionDescriptor) -> (r: String)
    ensures
        d.kernel_name matches Some(n) ==> r@ == n@,
        d.kernel_name is None ==> r@ == "python3"@,
{
    match &d.kernel_name {
        Some(n) => kernel_name_or_default(Some(n.as_str())),
        None => kernel_name_or_default(None),
    }
}

} // verus!
