//! The kernel checks.

use linux_audit_mcp::checks::kernel::{AcceptRedirects, Aslr, IpForward, RpFilter};
use linux_audit_mcp::checks::{Check, Status};

#[test]
fn aslr() {
    assert_eq!(
        Aslr.evaluate("kernel.randomize_va_space = 2\n").status,
        Status::Pass
    );
    assert_eq!(
        Aslr.evaluate("kernel.randomize_va_space = 0\n").status,
        Status::Fail
    );
    // Not reported -> fail.
    assert_eq!(Aslr.evaluate("").status, Status::Fail);
}

#[test]
fn ip_forward_and_redirects() {
    assert_eq!(
        IpForward.evaluate("net.ipv4.ip_forward = 0\n").status,
        Status::Pass
    );
    // ip_forward=1 on a plain host (no container bridge) -> fail.
    assert_eq!(
        IpForward.evaluate("net.ipv4.ip_forward = 1\n").status,
        Status::Fail
    );
    assert_eq!(
        AcceptRedirects
            .evaluate("net.ipv4.conf.all.accept_redirects = 0\n")
            .status,
        Status::Pass
    );
}

#[test]
fn ip_forward_is_expected_on_a_docker_host() {
    // docker0 bridge present -> forwarding is by design -> pass.
    let docker = "net.ipv4.ip_forward = 1\n\
                  net.ipv4.conf.docker0.forwarding = 1\n";
    assert_eq!(IpForward.evaluate(docker).status, Status::Pass);
    // A user-defined docker network (br-*) counts too.
    let br = "net.ipv4.ip_forward = 1\n\
              net.ipv4.conf.br-c2516d0a6cb9.forwarding = 1\n";
    assert_eq!(IpForward.evaluate(br).status, Status::Pass);
    // But an unrelated bridge name does not excuse forwarding.
    let other = "net.ipv4.ip_forward = 1\n\
                 net.ipv4.conf.eth0.forwarding = 1\n";
    assert_eq!(IpForward.evaluate(other).status, Status::Fail);
}

#[test]
fn rp_filter_accepts_1_or_2() {
    assert_eq!(
        RpFilter
            .evaluate("net.ipv4.conf.all.rp_filter = 2\n")
            .status,
        Status::Pass
    );
    assert_eq!(
        RpFilter
            .evaluate("net.ipv4.conf.all.rp_filter = 0\n")
            .status,
        Status::Fail
    );
}
