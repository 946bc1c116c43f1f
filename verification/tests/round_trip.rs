use sdp_types::attributes::{
    Candidate, Crypto, Direction, ExtMap, Fingerprint, Fmtp, Group, Rtcp, RtcpFb, RtpMap, Setup,
    SrtpKeyParam, Ssrc, SsrcGroup,
};
use sdp_types::enums::{AddrType, BandwidthType, KeyMethod, MediaType, NetType, TransportProto};

// ── enums ────────────────────────────────────────────────────────────────────

#[test]
fn net_type_round_trip() {
    let s = "IN";
    assert_eq!(s.parse::<NetType>().expect("failed to parse").to_string(), s);
    let s = "TN";
    assert_eq!(s.parse::<NetType>().expect("failed to parse").to_string(), s);
    let s = "ATM";
    assert_eq!(s.parse::<NetType>().expect("failed to parse").to_string(), s);
    let s = "PSTN";
    assert_eq!(s.parse::<NetType>().expect("failed to parse").to_string(), s);
}

#[test]
fn net_type_case_insensitive() {
    assert_eq!("in".parse::<NetType>().expect("failed to parse").to_string(), "IN");
    assert_eq!("tn".parse::<NetType>().expect("failed to parse").to_string(), "TN");
    assert_eq!("atm".parse::<NetType>().expect("failed to parse").to_string(), "ATM");
    assert_eq!("pstn".parse::<NetType>().expect("failed to parse").to_string(), "PSTN");
}

#[test]
fn net_type_invalid() {
    assert!("OTHER".parse::<NetType>().is_err());
}

#[test]
fn addr_type_round_trip() {
    let s = "IP4";
    assert_eq!(s.parse::<AddrType>().expect("failed to parse").to_string(), s);
    let s = "IP6";
    assert_eq!(s.parse::<AddrType>().expect("failed to parse").to_string(), s);
}

#[test]
fn addr_type_case_insensitive() {
    assert_eq!("ip4".parse::<AddrType>().expect("failed to parse").to_string(), "IP4");
    assert_eq!("ip6".parse::<AddrType>().expect("failed to parse").to_string(), "IP6");
}

#[test]
fn addr_type_invalid() {
    assert!("IP5".parse::<AddrType>().is_err());
}

#[test]
fn bandwidth_type_round_trip() {
    let s = "AS";
    assert_eq!(s.parse::<BandwidthType>().expect("failed to parse").to_string(), s);
    let s = "CT";
    assert_eq!(s.parse::<BandwidthType>().expect("failed to parse").to_string(), s);
    let s = "RR";
    assert_eq!(s.parse::<BandwidthType>().expect("failed to parse").to_string(), s);
    let s = "RS";
    assert_eq!(s.parse::<BandwidthType>().expect("failed to parse").to_string(), s);
}

#[test]
fn bandwidth_type_case_insensitive() {
    assert_eq!("as".parse::<BandwidthType>().expect("failed to parse").to_string(), "AS");
    assert_eq!("ct".parse::<BandwidthType>().expect("failed to parse").to_string(), "CT");
    assert_eq!("rr".parse::<BandwidthType>().expect("failed to parse").to_string(), "RR");
    assert_eq!("rs".parse::<BandwidthType>().expect("failed to parse").to_string(), "RS");
}

#[test]
fn bandwidth_type_invalid() {
    assert!("TIAS".parse::<BandwidthType>().is_err());
}

#[test]
fn key_method_round_trip() {
    let s = "clear";
    assert_eq!(s.parse::<KeyMethod>().expect("failed to parse").to_string(), s);
    let s = "base64";
    assert_eq!(s.parse::<KeyMethod>().expect("failed to parse").to_string(), s);
    let s = "uri";
    assert_eq!(s.parse::<KeyMethod>().expect("failed to parse").to_string(), s);
    let s = "prompt";
    assert_eq!(s.parse::<KeyMethod>().expect("failed to parse").to_string(), s);
}

#[test]
fn key_method_case_sensitive() {
    // KeyMethod is explicitly case-sensitive (RFC 8866)
    assert!("CLEAR".parse::<KeyMethod>().is_err());
    assert!("Base64".parse::<KeyMethod>().is_err());
}

#[test]
fn media_type_round_trip() {
    let s = "audio";
    assert_eq!(s.parse::<MediaType>().expect("failed to parse").to_string(), s);
    let s = "video";
    assert_eq!(s.parse::<MediaType>().expect("failed to parse").to_string(), s);
    let s = "text";
    assert_eq!(s.parse::<MediaType>().expect("failed to parse").to_string(), s);
    let s = "application";
    assert_eq!(s.parse::<MediaType>().expect("failed to parse").to_string(), s);
    let s = "message";
    assert_eq!(s.parse::<MediaType>().expect("failed to parse").to_string(), s);
    let s = "image";
    assert_eq!(s.parse::<MediaType>().expect("failed to parse").to_string(), s);
}

#[test]
fn media_type_case_insensitive() {
    assert_eq!("AUDIO".parse::<MediaType>().expect("failed to parse").to_string(), "audio");
    assert_eq!("Video".parse::<MediaType>().expect("failed to parse").to_string(), "video");
}

#[test]
fn media_type_invalid() {
    assert!("unknown".parse::<MediaType>().is_err());
}

#[test]
fn transport_proto_round_trip() {
    let s = "udp";
    assert_eq!(s.parse::<TransportProto>().expect("failed to parse").to_string(), s);
    let s = "RTP/AVP";
    assert_eq!(s.parse::<TransportProto>().expect("failed to parse").to_string(), s);
    let s = "RTP/SAVP";
    assert_eq!(s.parse::<TransportProto>().expect("failed to parse").to_string(), s);
    let s = "RTP/SAVPF";
    assert_eq!(s.parse::<TransportProto>().expect("failed to parse").to_string(), s);
}

#[test]
fn transport_proto_case_insensitive() {
    assert_eq!("UDP".parse::<TransportProto>().expect("failed to parse").to_string(), "udp");
    assert_eq!("rtp/avp".parse::<TransportProto>().expect("failed to parse").to_string(), "RTP/AVP");
    assert_eq!("rtp/savp".parse::<TransportProto>().expect("failed to parse").to_string(), "RTP/SAVP");
    assert_eq!("rtp/savpf".parse::<TransportProto>().expect("failed to parse").to_string(), "RTP/SAVPF");
}

#[test]
fn transport_proto_invalid() {
    assert!("SCTP".parse::<TransportProto>().is_err());
}

// ── attribute enums ──────────────────────────────────────────────────────────

#[test]
fn direction_round_trip() {
    let s = "sendonly";
    assert_eq!(s.parse::<Direction>().expect("failed to parse").to_string(), s);
    let s = "recvonly";
    assert_eq!(s.parse::<Direction>().expect("failed to parse").to_string(), s);
    let s = "sendrecv";
    assert_eq!(s.parse::<Direction>().expect("failed to parse").to_string(), s);
    let s = "inactive";
    assert_eq!(s.parse::<Direction>().expect("failed to parse").to_string(), s);
}

#[test]
fn direction_case_insensitive() {
    assert_eq!("SENDONLY".parse::<Direction>().expect("failed to parse").to_string(), "sendonly");
    assert_eq!("RecvOnly".parse::<Direction>().expect("failed to parse").to_string(), "recvonly");
    assert_eq!("SENDRECV".parse::<Direction>().expect("failed to parse").to_string(), "sendrecv");
    assert_eq!("INACTIVE".parse::<Direction>().expect("failed to parse").to_string(), "inactive");
}

#[test]
fn direction_invalid() {
    assert!("halfduplex".parse::<Direction>().is_err());
}

#[test]
fn setup_round_trip() {
    let s = "active";
    assert_eq!(s.parse::<Setup>().expect("failed to parse").to_string(), s);
    let s = "passive";
    assert_eq!(s.parse::<Setup>().expect("failed to parse").to_string(), s);
    let s = "actpass";
    assert_eq!(s.parse::<Setup>().expect("failed to parse").to_string(), s);
    let s = "holdconn";
    assert_eq!(s.parse::<Setup>().expect("failed to parse").to_string(), s);
}

#[test]
fn setup_case_insensitive() {
    assert_eq!("ACTIVE".parse::<Setup>().expect("failed to parse").to_string(), "active");
    assert_eq!("Passive".parse::<Setup>().expect("failed to parse").to_string(), "passive");
    assert_eq!("ACTPASS".parse::<Setup>().expect("failed to parse").to_string(), "actpass");
    assert_eq!("HOLDCONN".parse::<Setup>().expect("failed to parse").to_string(), "holdconn");
}

// ── RtpMap ───────────────────────────────────────────────────────────────────

#[test]
fn rtpmap_round_trip() {
    // without encoding params
    let s = "0 PCMU/8000";
    assert_eq!(s.parse::<RtpMap>().expect("failed to parse").to_string(), s);
    let s = "98 H263-1998/90000";
    assert_eq!(s.parse::<RtpMap>().expect("failed to parse").to_string(), s);
    let s = "8 PCMA/8000";
    assert_eq!(s.parse::<RtpMap>().expect("failed to parse").to_string(), s);
    // with encoding params
    let s = "97 MPEG4-GENERIC/48000/2";
    assert_eq!(s.parse::<RtpMap>().expect("failed to parse").to_string(), s);
    let s = "96 opus/48000/2";
    assert_eq!(s.parse::<RtpMap>().expect("failed to parse").to_string(), s);
}

#[test]
fn rtpmap_errors() {
    assert!("99".parse::<RtpMap>().is_err());
    assert!("abc PCMU/8000".parse::<RtpMap>().is_err());
    assert!("200 enc/90000".parse::<RtpMap>().is_err());
    assert!("99 ".parse::<RtpMap>().is_err());
}

// ── Fmtp ─────────────────────────────────────────────────────────────────────

#[test]
fn fmtp_round_trip() {
    // single param without value
    let s = "97 0-15";
    assert_eq!(s.parse::<Fmtp>().expect("failed to parse").to_string(), s);
    // single key=value
    let s = "98 profile-level-id=42";
    assert_eq!(s.parse::<Fmtp>().expect("failed to parse").to_string(), s);
    // multiple key=value params
    let s = "98 profile-level-id=1;mode=0";
    assert_eq!(s.parse::<Fmtp>().expect("failed to parse").to_string(), s);
    // mixed params
    let s = "99 vbr=on;dtx=1;mode=0";
    assert_eq!(s.parse::<Fmtp>().expect("failed to parse").to_string(), s);
}

#[test]
fn fmtp_errors() {
    assert!("invalid".parse::<Fmtp>().is_err());
    assert!("abc profile=1".parse::<Fmtp>().is_err());
}

// ── Rtcp ─────────────────────────────────────────────────────────────────────

#[test]
fn rtcp_round_trip() {
    let s = "53020 IN IP4 127.0.0.1";
    assert_eq!(s.parse::<Rtcp>().expect("failed to parse").to_string(), s);
    let s = "9 IN IP6 ::1";
    assert_eq!(s.parse::<Rtcp>().expect("failed to parse").to_string(), s);
    let s = "5004 IN IP4 192.168.1.1";
    assert_eq!(s.parse::<Rtcp>().expect("failed to parse").to_string(), s);
}

// ── RtcpFb ───────────────────────────────────────────────────────────────────

#[test]
fn rtcpfb_round_trip() {
    // ack variants
    let s = "* ack";
    assert_eq!(s.parse::<RtcpFb>().expect("failed to parse").to_string(), s);
    let s = "98 ack rpsi";
    assert_eq!(s.parse::<RtcpFb>().expect("failed to parse").to_string(), s);
    let s = "* ack app";
    assert_eq!(s.parse::<RtcpFb>().expect("failed to parse").to_string(), s);
    let s = "* ack app myapp";
    assert_eq!(s.parse::<RtcpFb>().expect("failed to parse").to_string(), s);
    let s = "* ack ccfb";
    assert_eq!(s.parse::<RtcpFb>().expect("failed to parse").to_string(), s);
    // nack variants
    let s = "* nack";
    assert_eq!(s.parse::<RtcpFb>().expect("failed to parse").to_string(), s);
    let s = "98 nack pli";
    assert_eq!(s.parse::<RtcpFb>().expect("failed to parse").to_string(), s);
    let s = "98 nack sli";
    assert_eq!(s.parse::<RtcpFb>().expect("failed to parse").to_string(), s);
    let s = "98 nack rpsi";
    assert_eq!(s.parse::<RtcpFb>().expect("failed to parse").to_string(), s);
    let s = "98 nack app";
    assert_eq!(s.parse::<RtcpFb>().expect("failed to parse").to_string(), s);
    let s = "98 nack app myapp";
    assert_eq!(s.parse::<RtcpFb>().expect("failed to parse").to_string(), s);
    let s = "98 nack ecn";
    assert_eq!(s.parse::<RtcpFb>().expect("failed to parse").to_string(), s);
    // trr-int
    let s = "* trr-int 0";
    assert_eq!(s.parse::<RtcpFb>().expect("failed to parse").to_string(), s);
    let s = "* trr-int 1000";
    assert_eq!(s.parse::<RtcpFb>().expect("failed to parse").to_string(), s);
    // ccm variants
    let s = "98 ccm fir";
    assert_eq!(s.parse::<RtcpFb>().expect("failed to parse").to_string(), s);
    let s = "98 ccm tstr";
    assert_eq!(s.parse::<RtcpFb>().expect("failed to parse").to_string(), s);
    let s = "* ccm tmmbr";
    assert_eq!(s.parse::<RtcpFb>().expect("failed to parse").to_string(), s);
    let s = "* ccm tmmbr smaxpr=120";
    assert_eq!(s.parse::<RtcpFb>().expect("failed to parse").to_string(), s);
    let s = "98 ccm vbcm 1 2";
    assert_eq!(s.parse::<RtcpFb>().expect("failed to parse").to_string(), s);
    // other
    let s = "* custom-feedback";
    assert_eq!(s.parse::<RtcpFb>().expect("failed to parse").to_string(), s);
}

// ── ExtMap ───────────────────────────────────────────────────────────────────

#[test]
fn extmap_round_trip() {
    // without direction or attributes
    let s = "1 urn:ietf:params:rtp-hdrext:ssrc-audio-level";
    assert_eq!(s.parse::<ExtMap>().expect("failed to parse").to_string(), s);
    let s = "2 urn:ietf:params:rtp-hdrext:mid";
    assert_eq!(s.parse::<ExtMap>().expect("failed to parse").to_string(), s);
    // with direction
    let s = "1/sendonly urn:ietf:params:rtp-hdrext:ssrc-audio-level";
    assert_eq!(s.parse::<ExtMap>().expect("failed to parse").to_string(), s);
    let s = "2/recvonly urn:ietf:params:rtp-hdrext:mid";
    assert_eq!(s.parse::<ExtMap>().expect("failed to parse").to_string(), s);
    let s = "3/sendrecv urn:ietf:params:rtp-hdrext:mid";
    assert_eq!(s.parse::<ExtMap>().expect("failed to parse").to_string(), s);
    let s = "4/inactive urn:ietf:params:rtp-hdrext:mid";
    assert_eq!(s.parse::<ExtMap>().expect("failed to parse").to_string(), s);
    // with attributes
    let s = "5 urn:ietf:params:rtp-hdrext:mid some-attr";
    assert_eq!(s.parse::<ExtMap>().expect("failed to parse").to_string(), s);
    // with direction and attributes
    let s = "6/sendrecv urn:ietf:params:rtp-hdrext:mid some-attr";
    assert_eq!(s.parse::<ExtMap>().expect("failed to parse").to_string(), s);
    // with multi-word attributes
    let s = "7 urn:ietf:params:rtp-hdrext:mid some attr with spaces";
    assert_eq!(s.parse::<ExtMap>().expect("failed to parse").to_string(), s);
    let s = "8/sendonly urn:ietf:params:rtp-hdrext:mid some attr with spaces";
    assert_eq!(s.parse::<ExtMap>().expect("failed to parse").to_string(), s);
}

// ── Fingerprint ──────────────────────────────────────────────────────────────

#[test]
fn fingerprint_round_trip() {
    // sha-1 (20 bytes)
    let s = "sha-1 CD:34:D1:1E:5A:5A:89:57:1F:C0:04:47:20:32:11:7C:41:4F:82:41";
    assert_eq!(s.parse::<Fingerprint>().expect("failed to parse").to_string(), s);
    // sha-256 (32 bytes)
    let s = "sha-256 3A:96:6D:57:B2:C2:C7:61:A0:46:3E:1C:97:39:D3:F7:0A:88:A0:B1:EC:03:FB:10:A5:5D:3A:37:AB:DD:02:AA";
    assert_eq!(s.parse::<Fingerprint>().expect("failed to parse").to_string(), s);
    // sha-224 (28 bytes)
    let s = "sha-224 AB:CD:EF:01:23:45:67:89:AB:CD:EF:01:23:45:67:89:AB:CD:EF:01:23:45:67:89:AB:CD:EF:01";
    assert_eq!(s.parse::<Fingerprint>().expect("failed to parse").to_string(), s);
    // sha-384 (48 bytes)
    let s = "sha-384 AB:CD:EF:01:23:45:67:89:AB:CD:EF:01:23:45:67:89:AB:CD:EF:01:23:45:67:89:AB:CD:EF:01:23:45:67:89:AB:CD:EF:01:23:45:67:89:AB:CD:EF:01:23:45";
    assert_eq!(s.parse::<Fingerprint>().expect("failed to parse").to_string(), s);
    // sha-512 (64 bytes)
    let s = "sha-512 AB:CD:EF:01:23:45:67:89:AB:CD:EF:01:23:45:67:89:AB:CD:EF:01:23:45:67:89:AB:CD:EF:01:23:45:67:89:AB:CD:EF:01:23:45:67:89:AB:CD:EF:01:23:45:67:89:AB:CD:EF:01:23:45:67:89:AB:CD:EF:01:23:45:67";
    assert_eq!(s.parse::<Fingerprint>().expect("failed to parse").to_string(), s);
    // md-5 (16 bytes)
    let s = "md-5 FF:FF:FF:FF:FF:FF:FF:FF:FF:FF:FF:FF:FF:FF:FF:FF";
    assert_eq!(s.parse::<Fingerprint>().expect("failed to parse").to_string(), s);
    // md-2 (16 bytes)
    let s = "md-2 00:11:22:33:44:55:66:77:88:99:AA:BB:CC:DD:EE:FF";
    assert_eq!(s.parse::<Fingerprint>().expect("failed to parse").to_string(), s);
}

#[test]
fn fingerprint_case_insensitive_hash_func() {
    assert_eq!("SHA-1 CD:34:D1:1E:5A:5A:89:57:1F:C0:04:47:20:32:11:7C:41:4F:82:41".parse::<Fingerprint>().expect("failed to parse").to_string(), "sha-1 CD:34:D1:1E:5A:5A:89:57:1F:C0:04:47:20:32:11:7C:41:4F:82:41");
}

// ── Group ────────────────────────────────────────────────────────────────────

#[test]
fn group_round_trip() {
    let s = "LS 1 2";
    assert_eq!(s.parse::<Group>().expect("failed to parse").to_string(), s);
    let s = "FID 1 2 3";
    assert_eq!(s.parse::<Group>().expect("failed to parse").to_string(), s);
    let s = "SRF audio video";
    assert_eq!(s.parse::<Group>().expect("failed to parse").to_string(), s);
    let s = "ANAT audio video";
    assert_eq!(s.parse::<Group>().expect("failed to parse").to_string(), s);
    let s = "FEC 1 2";
    assert_eq!(s.parse::<Group>().expect("failed to parse").to_string(), s);
    let s = "DDP 1 2 3 4";
    assert_eq!(s.parse::<Group>().expect("failed to parse").to_string(), s);
    // Other semantics
    let s = "BUNDLE audio video data";
    assert_eq!(s.parse::<Group>().expect("failed to parse").to_string(), s);
}

#[test]
fn group_case_insensitive_semantics() {
    assert_eq!("ls 1 2".parse::<Group>().expect("failed to parse").to_string(), "LS 1 2");
    assert_eq!("fid 1 2 3".parse::<Group>().expect("failed to parse").to_string(), "FID 1 2 3");
    // Other semantics keep their case as written
    let s = "BUNDLE audio video";
    assert_eq!(s.parse::<Group>().expect("failed to parse").to_string(), s);
}

// ── Ssrc ─────────────────────────────────────────────────────────────────────

#[test]
fn ssrc_round_trip() {
    // cname with value
    let s = "3735928559 cname:alice@atlanta.com";
    assert_eq!(s.parse::<Ssrc>().expect("failed to parse").to_string(), s);
    // previous-ssrc without value
    let s = "1234567890 previous-ssrc";
    assert_eq!(s.parse::<Ssrc>().expect("failed to parse").to_string(), s);
    // fmtp with value
    let s = "1234567890 fmtp:0 0-15";
    assert_eq!(s.parse::<Ssrc>().expect("failed to parse").to_string(), s);
    // other attribute
    let s = "1698359993 ts-refclk:ntp=pool.ntp.org";
    assert_eq!(s.parse::<Ssrc>().expect("failed to parse").to_string(), s);
    // attribute without value
    let s = "999 cname";
    assert_eq!(s.parse::<Ssrc>().expect("failed to parse").to_string(), s);
}

#[test]
fn ssrc_case_insensitive_attribute() {
    assert_eq!("3735928559 CNAME:alice@atlanta.com".parse::<Ssrc>().expect("failed to parse").to_string(), "3735928559 cname:alice@atlanta.com");
    assert_eq!("1234567890 PREVIOUS-SSRC".parse::<Ssrc>().expect("failed to parse").to_string(), "1234567890 previous-ssrc");
    assert_eq!("1234567890 FMTP:params".parse::<Ssrc>().expect("failed to parse").to_string(), "1234567890 fmtp:params");
}

// ── SsrcGroup ────────────────────────────────────────────────────────────────

#[test]
fn ssrc_group_round_trip() {
    let s = "FID 3735928559 1234567890";
    assert_eq!(s.parse::<SsrcGroup>().expect("failed to parse").to_string(), s);
    let s = "FEC 1000000000 2000000000 3000000000";
    assert_eq!(s.parse::<SsrcGroup>().expect("failed to parse").to_string(), s);
    let s = "LS 111 222 333";
    assert_eq!(s.parse::<SsrcGroup>().expect("failed to parse").to_string(), s);
}

#[test]
fn ssrc_group_case_insensitive_semantics() {
    assert_eq!("fid 11111 22222".parse::<SsrcGroup>().expect("failed to parse").to_string(), "FID 11111 22222");
}

// ── SrtpKeyParam ─────────────────────────────────────────────────────────────

#[test]
fn srtp_key_param_round_trip() {
    // key only
    let s = "inline:WVNfX19zZW1jdGwgKCkgewkyMjA7fQp9CnVubGVz";
    assert_eq!(s.parse::<SrtpKeyParam>().expect("failed to parse").to_string(), s);
    // with power-of-two lifetime
    let s = "inline:WVNfX19zZW1jdGwgKCkgewkyMjA7fQp9CnVubGVz|2^20";
    assert_eq!(s.parse::<SrtpKeyParam>().expect("failed to parse").to_string(), s);
    // with lifetime and MKI
    let s = "inline:WVNfX19zZW1jdGwgKCkgewkyMjA7fQp9CnVubGVz|2^20|1:4";
    assert_eq!(s.parse::<SrtpKeyParam>().expect("failed to parse").to_string(), s);
    // with non-power-of-two lifetime and MKI
    let s = "inline:YUJDZGVmZ2hpSktMbW9QUXJzVHVWd3l6MTIzNDU2|1066:4";
    assert_eq!(s.parse::<SrtpKeyParam>().expect("failed to parse").to_string(), s);
    // with MKI only (no lifetime)
    let s = "inline:MTIzNDU2Nzg5QUJDREUwMTIzNDU2Nzg5QUJjZGVm|2^20|2:4";
    assert_eq!(s.parse::<SrtpKeyParam>().expect("failed to parse").to_string(), s);
}

// ── Crypto ───────────────────────────────────────────────────────────────────

#[test]
fn crypto_round_trip() {
    // single key param, no session params
    let s = "1 AES_CM_128_HMAC_SHA1_80 inline:WVNfX19zZW1jdGwgKCkgewkyMjA7fQp9CnVubGVz";
    assert_eq!(s.parse::<Crypto>().expect("failed to parse").to_string(), s);
    // with lifetime and MKI
    let s = "1 AES_CM_128_HMAC_SHA1_80 inline:WVNfX19zZW1jdGwgKCkgewkyMjA7fQp9CnVubGVz|2^20|1:4";
    assert_eq!(s.parse::<Crypto>().expect("failed to parse").to_string(), s);
    // AES_CM_128_HMAC_SHA1_32
    let s = "2 AES_CM_128_HMAC_SHA1_32 inline:MTIzNDU2Nzg5QUJDREUwMTIzNDU2Nzg5QUJjZGVm|2^20|1:4";
    assert_eq!(s.parse::<Crypto>().expect("failed to parse").to_string(), s);
    // F8_128_HMAC_SHA1_80
    let s = "3 F8_128_HMAC_SHA1_80 inline:MTIzNDU2Nzg5QUJDREUwMTIzNDU2Nzg5QUJjZGVm|2^20|1:4";
    assert_eq!(s.parse::<Crypto>().expect("failed to parse").to_string(), s);
    // multiple key params
    let s = "2 F8_128_HMAC_SHA1_80 inline:MTIzNDU2Nzg5QUJDREUwMTIzNDU2Nzg5QUJjZGVm|2^20|1:4;inline:QUJjZGVmMTIzNDU2Nzg5QUJDREUwMTIzNDU2Nzg5|2^20|2:4";
    assert_eq!(s.parse::<Crypto>().expect("failed to parse").to_string(), s);
    // with session params
    let s = "1 AES_CM_128_HMAC_SHA1_80 inline:WVNfX19zZW1jdGwgKCkgewkyMjA7fQp9CnVubGVz|2^20|1:4 FEC_ORDER=SRTP_FEC";
    assert_eq!(s.parse::<Crypto>().expect("failed to parse").to_string(), s);
    let s = "2 F8_128_HMAC_SHA1_80 inline:MTIzNDU2Nzg5QUJDREUwMTIzNDU2Nzg5QUJjZGVm|2^20|1:4;inline:QUJjZGVmMTIzNDU2Nzg5QUJDREUwMTIzNDU2Nzg5|2^20|2:4 FEC_ORDER=FEC_SRTP";
    assert_eq!(s.parse::<Crypto>().expect("failed to parse").to_string(), s);
    // with non-power-of-two lifetime
    let s = "1 AES_CM_128_HMAC_SHA1_80 inline:YUJDZGVmZ2hpSktMbW9QUXJzVHVWd3l6MTIzNDU2|1066:4";
    assert_eq!(s.parse::<Crypto>().expect("failed to parse").to_string(), s);
    // other session params
    let s = "1 AES_CM_128_HMAC_SHA1_80 inline:WVNfX19zZW1jdGwgKCkgewkyMjA7fQp9CnVubGVz UNENCRYPTED_SRTP";
    assert_eq!(s.parse::<Crypto>().expect("failed to parse").to_string(), s);
    let s = "1 AES_CM_128_HMAC_SHA1_80 inline:WVNfX19zZW1jdGwgKCkgewkyMjA7fQp9CnVubGVz UNENCRYPTED_SRTCP";
    assert_eq!(s.parse::<Crypto>().expect("failed to parse").to_string(), s);
    let s = "1 AES_CM_128_HMAC_SHA1_80 inline:WVNfX19zZW1jdGwgKCkgewkyMjA7fQp9CnVubGVz UNAUTHENTICATED_SRTP";
    assert_eq!(s.parse::<Crypto>().expect("failed to parse").to_string(), s);
    let s = "1 AES_CM_128_HMAC_SHA1_80 inline:WVNfX19zZW1jdGwgKCkgewkyMjA7fQp9CnVubGVz KDR=16";
    assert_eq!(s.parse::<Crypto>().expect("failed to parse").to_string(), s);
    let s = "1 AES_CM_128_HMAC_SHA1_80 inline:WVNfX19zZW1jdGwgKCkgewkyMjA7fQp9CnVubGVz WSH=64";
    assert_eq!(s.parse::<Crypto>().expect("failed to parse").to_string(), s);
    // FEC_KEY with single key param
    let s = "1 AES_CM_128_HMAC_SHA1_80 inline:WVNfX19zZW1jdGwgKCkgewkyMjA7fQp9CnVubGVz FEC_KEY=inline:QUJjZGVmMTIzNDU2Nzg5QUJDREUwMTIzNDU2Nzg5";
    assert_eq!(s.parse::<Crypto>().expect("failed to parse").to_string(), s);
    // FEC_KEY with multiple key params
    let s = "1 AES_CM_128_HMAC_SHA1_80 inline:WVNfX19zZW1jdGwgKCkgewkyMjA7fQp9CnVubGVz FEC_KEY=inline:QUJjZGVmMTIzNDU2Nzg5QUJDREUwMTIzNDU2Nzg5;inline:MTIzNDU2Nzg5QUJDREUwMTIzNDU2Nzg5QUJjZGVm";
    assert_eq!(s.parse::<Crypto>().expect("failed to parse").to_string(), s);
}

#[test]
fn crypto_case_insensitive_suite() {
    assert_eq!("1 aes_cm_128_hmac_sha1_80 inline:WVNfX19zZW1jdGwgKCkgewkyMjA7fQp9CnVubGVz".parse::<Crypto>().expect("failed to parse").to_string(), "1 AES_CM_128_HMAC_SHA1_80 inline:WVNfX19zZW1jdGwgKCkgewkyMjA7fQp9CnVubGVz");
}

// ── Candidate ────────────────────────────────────────────────────────────────

#[test]
fn candidate_round_trip() {
    // host, no optional fields
    let s = "1 1 UDP 2130706432 192.168.1.1 49152 typ host";
    assert_eq!(s.parse::<Candidate>().expect("failed to parse").to_string(), s);
    // host, IPv6
    let s = "4 1 UDP 100 2001:db8::1 49152 typ host";
    assert_eq!(s.parse::<Candidate>().expect("failed to parse").to_string(), s);
    // srflx with raddr/rport
    let s = "2 1 UDP 1692467200 10.0.1.1 49152 typ srflx raddr 192.168.1.1 rport 49153";
    assert_eq!(s.parse::<Candidate>().expect("failed to parse").to_string(), s);
    // prflx
    let s = "5 1 UDP 50 192.168.1.1 49154 typ prflx";
    assert_eq!(s.parse::<Candidate>().expect("failed to parse").to_string(), s);
    // relay with raddr/rport
    let s = "6 1 UDP 25 192.168.1.1 49155 typ relay raddr 10.0.0.1 rport 49156";
    assert_eq!(s.parse::<Candidate>().expect("failed to parse").to_string(), s);
    // with extensions
    let s = "1 1 UDP 2130706432 192.168.1.1 49152 typ host raddr 10.0.1.1 rport 49153 generation 0";
    assert_eq!(s.parse::<Candidate>().expect("failed to parse").to_string(), s);
    let s = "abcd/1234 1 UDP 2130706432 192.168.0.1 49152 typ srflx raddr 10.0.0.1 rport 49153 tcptype active";
    assert_eq!(s.parse::<Candidate>().expect("failed to parse").to_string(), s);
    // FQDN address
    let s = "1 1 UDP 2130706432 host.example.com 49152 typ host";
    assert_eq!(s.parse::<Candidate>().expect("failed to parse").to_string(), s);
    // Other candidate type
    let s = "7 1 UDP 10 192.168.1.1 49157 typ unknown_type";
    assert_eq!(s.parse::<Candidate>().expect("failed to parse").to_string(), s);
}

#[test]
fn candidate_case_insensitive_typ_and_extensions() {
    // candidate types should be case-insensitive
    assert_eq!("1 1 UDP 2130706432 192.168.1.1 49152 typ HOST".parse::<Candidate>().expect("failed to parse").to_string(), "1 1 UDP 2130706432 192.168.1.1 49152 typ host");
    assert_eq!("2 1 UDP 100 10.0.0.1 49152 typ SRFLX raddr 192.168.1.1 rport 49153".parse::<Candidate>().expect("failed to parse").to_string(), "2 1 UDP 100 10.0.0.1 49152 typ srflx raddr 192.168.1.1 rport 49153");
    // raddr and rport keys should be case-insensitive
    assert_eq!("2 1 UDP 100 10.0.0.1 49152 typ srflx RADDR 192.168.1.1 RPORT 49153".parse::<Candidate>().expect("failed to parse").to_string(), "2 1 UDP 100 10.0.0.1 49152 typ srflx raddr 192.168.1.1 rport 49153");
}
