//! Netstat records: which TCP and UDP ports are in use and by whom.
//! Querying the host's socket tables is I/O the caller owns; the library
//! partitions the queried sockets into the TCP and UDP records it serves.

use vstd::prelude::*;

verus! {

/// One socket address.
pub struct AddressPort {
    pub address: String,
    pub port: u16,
}

/// Mathematical model of one socket address.
pub ghost struct AddressPortView {
    pub address: Seq<char>,
    pub port: u16,
}

impl View for AddressPort {
    type V = AddressPortView;

    open spec fn view(&self) -> AddressPortView {
        AddressPortView { address: self.address@, port: self.port }
    }
}

/// One UDP port in use.
pub struct Udp {
    pub local: AddressPort,
    pub pids: Vec<u32>,
}

/// Mathematical model of one UDP record.
pub ghost struct UdpView {
    pub local: AddressPortView,
    pub pids: Seq<u32>,
}

impl View for Udp {
    type V = UdpView;

    open spec fn view(&self) -> UdpView {
        UdpView { local: self.local@, pids: self.pids@ }
    }
}

impl DeepView for Udp {
    type V = UdpView;

    open spec fn deep_view(&self) -> UdpView {
        self.view()
    }
}

/// One TCP connection or listener.
pub struct Tcp {
    pub local: AddressPort,
    pub remote: AddressPort,
    pub pids: Vec<u32>,
    pub state: String,
}

/// Mathematical model of one TCP record.
pub ghost struct TcpView {
    pub local: AddressPortView,
    pub remote: AddressPortView,
    pub pids: Seq<u32>,
    pub state: Seq<char>,
}

impl View for Tcp {
    type V = TcpView;

    open spec fn view(&self) -> TcpView {
        TcpView {
            local: self.local@,
            remote: self.remote@,
            pids: self.pids@,
            state: self.state@,
        }
    }
}

impl DeepView for Tcp {
    type V = TcpView;

    open spec fn deep_view(&self) -> TcpView {
        self.view()
    }
}

/// What the host's socket table reports of one TCP socket, as plain values.
pub struct TcpSocketInfo {
    pub local_address: String,
    pub local_port: u16,
    pub remote_address: String,
    pub remote_port: u16,
    pub state: String,
}

/// What the host's socket table reports of one UDP socket, as plain values.
pub struct UdpSocketInfo {
    pub local_address: String,
    pub local_port: u16,
}

/// The protocol-specific part of one queried socket.
pub enum SocketProtocolInfo {
    Tcp(TcpSocketInfo),
    Udp(UdpSocketInfo),
}

/// One queried socket: its protocol record and the processes using it.
pub struct SocketInfo {
    pub protocol: SocketProtocolInfo,
    pub associated_pids: Vec<u32>,
}

/// Mathematical model of one queried socket.
pub ghost struct SocketInfoView {
    pub protocol: SocketProtocolInfoView,
    pub associated_pids: Seq<u32>,
}

/// Mathematical model of the protocol-specific part.
pub ghost enum SocketProtocolInfoView {
    Tcp { local: AddressPortView, remote: AddressPortView, state: Seq<char> },
    Udp { local: AddressPortView },
}

impl View for SocketInfo {
    type V = SocketInfoView;

    open spec fn view(&self) -> SocketInfoView {
        SocketInfoView {
            protocol: match self.protocol {
                SocketProtocolInfo::Tcp(t) => SocketProtocolInfoView::Tcp {
                    local: AddressPortView { address: t.local_address@, port: t.local_port },
                    remote: AddressPortView { address: t.remote_address@, port: t.remote_port },
                    state: t.state@,
                },
                SocketProtocolInfo::Udp(u) => SocketProtocolInfoView::Udp {
                    local: AddressPortView { address: u.local_address@, port: u.local_port },
                },
            },
            associated_pids: self.associated_pids@,
        }
    }
}

impl DeepView for SocketInfo {
    type V = SocketInfoView;

    open spec fn deep_view(&self) -> SocketInfoView {
        self.view()
    }
}

/// The TCP records among the queried sockets, in query order.
pub open spec fn tcps_of(sockets: Seq<SocketInfoView>) -> Seq<TcpView>
    decreases sockets.len(),
{
    if sockets.len() == 0 {
        Seq::empty()
    } else {
        tcps_of(sockets.drop_last()) + (match sockets.last().protocol {
            SocketProtocolInfoView::Tcp { local, remote, state } => seq![
                TcpView { local, remote, pids: sockets.last().associated_pids, state },
            ],
            SocketProtocolInfoView::Udp { .. } => Seq::empty(),
        })
    }
}

/// The UDP records among the queried sockets, in query order.
pub open spec fn udps_of(sockets: Seq<SocketInfoView>) -> Seq<UdpView>
    decreases sockets.len(),
{
    if sockets.len() == 0 {
        Seq::empty()
    } else {
        udps_of(sockets.drop_last()) + (match sockets.last().protocol {
            SocketProtocolInfoView::Udp { local } => seq![
                UdpView { local, pids: sockets.last().associated_pids },
            ],
            SocketProtocolInfoView::Tcp { .. } => Seq::empty(),
        })
    }
}

/// The TCP/UDP port report.
pub struct Netstat {
    pub tcp: Vec<Tcp>,
    pub udp: Vec<Udp>,
}

/// Partitions the queried sockets into the TCP and UDP records the netstat
/// endpoint serves: every TCP socket becomes one TCP record and every UDP
/// socket one UDP record, each in query order, carrying the socket's
/// addresses, state and owning processes.
#[verifier::loop_isolation(false)]
pub fn build_netstat(sockets: Vec<SocketInfo>) -> (r: Netstat)
    ensures
        r.tcp.deep_view() == tcps_of(sockets.deep_view()),
        r.udp.deep_view() == udps_of(sockets.deep_view()),
{
    let ghost all = sockets.deep_view();
    let n = sockets.len();
    let mut tcp_out: Vec<Tcp> = Vec::new();
    let mut udp_out: Vec<Udp> = Vec::new();
    let mut i: usize = 0;
    proof {
        assert(all.take(0) =~= Seq::<SocketInfoView>::empty());
        assert(tcp_out.deep_view() =~= tcps_of(all.take(0)));
        assert(udp_out.deep_view() =~= udps_of(all.take(0)));
    }
    while i < n
        invariant
            i <= n,
            n == all.len(),
            sockets.deep_view() == all,
            tcp_out.deep_view() == tcps_of(all.take(i as int)),
            udp_out.deep_view() == udps_of(all.take(i as int)),
        decreases n - i,
    {
        proof {
            assert(sockets@[i as int]@ == all[i as int]);
            assert(all.take(i + 1).drop_last() =~= all.take(i as int));
            assert(all.take(i + 1).last() == all[i as int]);
        }
        let s = &sockets[i];
        match &s.protocol {
            SocketProtocolInfo::Tcp(t) => {
                let ghost pre = tcp_out.deep_view();
                tcp_out.push(
                    Tcp {
                        local: AddressPort {
                            address: t.local_address.clone(),
                            port: t.local_port,
                        },
                        remote: AddressPort {
                            address: t.remote_address.clone(),
                            port: t.remote_port,
                        },
                        pids: clone_pids(&s.associated_pids),
                        state: t.state.clone(),
                    },
                );
                proof {
                    assert forall|k: int| 0 <= k < tcp_out@.len() implies tcp_out.deep_view()[k]
                        == tcps_of(all.take(i + 1))[k] by {
                        if k < pre.len() {
                            assert(tcp_out.deep_view()[k] == pre[k]);
                        }
                    }
                    assert(tcp_out.deep_view() =~= tcps_of(all.take(i + 1)));
                    assert(udp_out.deep_view() =~= udps_of(all.take(i + 1)));
                }
            },
            SocketProtocolInfo::Udp(u) => {
                let ghost pre = udp_out.deep_view();
                udp_out.push(
                    Udp {
                        local: AddressPort {
                            address: u.local_address.clone(),
                            port: u.local_port,
                        },
                        pids: clone_pids(&s.associated_pids),
                    },
                );
                proof {
                    assert forall|k: int| 0 <= k < udp_out@.len() implies udp_out.deep_view()[k]
                        == udps_of(all.take(i + 1))[k] by {
                        if k < pre.len() {
                            assert(udp_out.deep_view()[k] == pre[k]);
                        }
                    }
                    assert(udp_out.deep_view() =~= udps_of(all.take(i + 1)));
                    assert(tcp_out.deep_view() =~= tcps_of(all.take(i + 1)));
                }
            },
        }
        i += 1;
    }
    proof {
        assert(all.take(n as int) =~= all);
    }
    Netstat { tcp: tcp_out, udp: udp_out }
}

/// A copy of a socket's owning process identifiers.
fn clone_pids(pids: &Vec<u32>) -> (r: Vec<u32>)
    ensures
        r@ == pids@,
{
    let mut out: Vec<u32> = Vec::new();
    let n = pids.len();
    let mut i: usize = 0;
    while i < n
        invariant
            i <= n,
            n == pids@.len(),
            out@ =~= pids@.take(i as int),
        decreases n - i,
    {
        out.push(pids[i]);
        proof {
            assert(out@ =~= pids@.take(i + 1));
        }
        i += 1;
    }
    proof {
        assert(pids@.take(n as int) =~= pids@);
    }
    out
}

} // verus!