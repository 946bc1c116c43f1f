use sdp_types::attributes::{
    Candidate, CandidateAddress, CandidateType, Crypto, CryptoSuite, Direction, ExtMap, FecOrder,
    Fingerprint, Fmtp, FmtpParam, Group, GroupSemantics, HashFunc, Rtcp, RtcpFb, RtcpFbAck,
    RtcpFbCcm, RtcpFbNack, RtcpFbPt, RtcpFbVal, RtpMap, Setup, SrtpKeyParam, SrtpSessionParam,
    Ssrc, SsrcAttribute, SsrcGroup, TypedAttribute,
};
use sdp_types::enums::{
    AddrType, BandwidthType, KeyMethod, MediaType, NetType, ParseEnumError, TransportProto,
};
use sdp_types::{
    AttributeError, AttributeNotFoundError, Attribute, Bandwidth, Connection, IpAddr, Ipv4Addr,
    Ipv6Addr, Key, Media, Origin, Session,
};

fn media_with(attributes: Vec<Attribute>) -> Media {
    Media {
        media: "audio".into(),
        port: 9,
        num_ports: None,
        proto: "RTP/AVP".into(),
        fmt: "0".into(),
        media_title: None,
        connections: vec![],
        bandwidths: vec![],
        key: None,
        attributes,
    }
}

fn attr(name: &str, value: Option<&str>) -> Attribute {
    Attribute {
        attribute: name.to_string(),
        value: value.map(|v| v.to_string()),
    }
}

// ── reading back what was written ───────────────────────────────────────────

#[test]
fn law_rtpmap_written_reads_back() {
    let v = RtpMap {
        payload_type: 127,
        encoding_name: "opus".into(),
        clock_rate: 48000,
        encoding_params: Some("2".into()),
    };
    assert_eq!(v.to_string(), "127 opus/48000/2");
    assert_eq!(RtpMap::from_str(&v.to_string()), Ok(v));
}

#[test]
fn law_fmtp_written_reads_back() {
    let v = Fmtp {
        fmt: 101,
        format_specific_params: vec![
            FmtpParam {
                param: "0-15".into(),
                val: None,
            },
            FmtpParam {
                param: "x".into(),
                val: Some("a=b".into()),
            },
        ],
    };
    assert_eq!(v.to_string(), "101 0-15;x=a=b");
    assert_eq!(Fmtp::from_str(&v.to_string()), Ok(v));
}

#[test]
fn fmtp_trailing_empty_parameter_is_trimmed() {
    let v = Fmtp {
        fmt: 97,
        format_specific_params: vec![
            FmtpParam {
                param: "a".into(),
                val: None,
            },
            FmtpParam {
                param: "".into(),
                val: None,
            },
        ],
    };
    assert_eq!(v.to_string(), "97 a");
    let single = Fmtp {
        fmt: 97,
        format_specific_params: vec![FmtpParam {
            param: "".into(),
            val: None,
        }],
    };
    assert_eq!(single.to_string(), "97 ");
    assert_eq!(Fmtp::from_str("97 "), Ok(single));
}

#[test]
fn law_rtcp_written_reads_back() {
    let v = Rtcp {
        port: 65535,
        nettype: NetType::In,
        addrtype: AddrType::Ip6,
        connection_address: IpAddr::V6(Ipv6Addr::new(0x2001, 0xdb8, 0, 0, 1, 0, 0, 1)),
    };
    assert_eq!(v.to_string(), "65535 IN IP6 2001:db8::1:0:0:1");
    assert_eq!(Rtcp::from_str(&v.to_string()), Ok(v));
}

#[test]
fn law_rtcpfb_written_reads_back() {
    let values = vec![
        RtcpFb {
            pt: RtcpFbPt::Fmt(96),
            val: RtcpFbVal::Ccm(RtcpFbCcm::Vbcm(vec![1, 2, 255])),
        },
        RtcpFb {
            pt: RtcpFbPt::Wildcard,
            val: RtcpFbVal::Ack(Some(RtcpFbAck::App(Some("x".into())))),
        },
        RtcpFb {
            pt: RtcpFbPt::Fmt(0),
            val: RtcpFbVal::Nack(Some(RtcpFbNack::Pli)),
        },
        RtcpFb {
            pt: RtcpFbPt::Wildcard,
            val: RtcpFbVal::TrrInt(u64::MAX),
        },
    ];
    for v in values {
        assert_eq!(RtcpFb::from_str(&v.to_string()), Ok(v));
    }
}

#[test]
fn law_extmap_written_reads_back() {
    let v = ExtMap {
        id: 255,
        direction: Some(Direction::Inactive),
        uri: "urn:x".into(),
        attributes: Some("a b  c".into()),
    };
    assert_eq!(v.to_string(), "255/inactive urn:x a b  c");
    assert_eq!(ExtMap::from_str(&v.to_string()), Ok(v));
}

#[test]
fn law_fingerprint_written_reads_back() {
    let v = Fingerprint {
        hash_func: HashFunc::SHA512,
        fingerprint: vec![0x00, 0x0a, 0xff],
    };
    assert_eq!(v.to_string(), "sha-512 00:0A:FF");
    assert_eq!(Fingerprint::from_str(&v.to_string()), Ok(v));
}

#[test]
fn law_group_written_reads_back() {
    let v = Group {
        semantics: GroupSemantics::FID,
        mid_tags: vec!["a".into(), "b".into()],
    };
    assert_eq!(v.to_string(), "FID a b");
    assert_eq!(Group::from_str(&v.to_string()), Ok(v));
}

#[test]
fn law_ssrc_written_reads_back() {
    let v = Ssrc {
        ssrc_id: u32::MAX,
        attribute: SsrcAttribute::Other("x y".into()),
        value: Some("a:b".into()),
    };
    assert_eq!(v.to_string(), "4294967295 x y:a:b");
    assert_eq!(Ssrc::from_str(&v.to_string()), Ok(v));
}

#[test]
fn law_ssrc_group_written_reads_back() {
    let v = SsrcGroup {
        semantics: GroupSemantics::FEC,
        ssrc_ids: vec![0, 4294967295],
    };
    assert_eq!(v.to_string(), "FEC 0 4294967295");
    assert_eq!(SsrcGroup::from_str(&v.to_string()), Ok(v));
    let empty = SsrcGroup {
        semantics: GroupSemantics::Other("X".into()),
        ssrc_ids: vec![],
    };
    assert_eq!(SsrcGroup::from_str(&empty.to_string()), Ok(empty));
}

#[test]
fn law_srtp_key_param_written_reads_back() {
    let values = vec![
        SrtpKeyParam {
            key_and_salt: "KEY".into(),
            lifetime: Some(1),
            mki_and_length: None,
        },
        SrtpKeyParam {
            key_and_salt: "KEY".into(),
            lifetime: Some(0),
            mki_and_length: Some((7, 128)),
        },
        SrtpKeyParam {
            key_and_salt: "".into(),
            lifetime: Some(2147483648),
            mki_and_length: Some((0, 1)),
        },
    ];
    assert_eq!(values[0].to_string(), "inline:KEY|2^0");
    assert_eq!(values[1].to_string(), "inline:KEY|0|7:128");
    assert_eq!(values[2].to_string(), "inline:|2^31|0:1");
    for v in values {
        assert_eq!(SrtpKeyParam::from_str(&v.to_string()), Ok(v));
    }
}

#[test]
fn law_crypto_written_reads_back() {
    let v = Crypto {
        tag: 7,
        crypto_suite: CryptoSuite::Other("AEAD_AES_256_GCM".into()),
        key_params: vec![SrtpKeyParam {
            key_and_salt: "K1".into(),
            lifetime: Some(1000),
            mki_and_length: None,
        }],
        session_params: vec![
            SrtpSessionParam::Kdr(24),
            SrtpSessionParam::Wsh(64),
            SrtpSessionParam::UnauthenticatedSrtp,
            SrtpSessionParam::FecOrder(FecOrder::FecSrtp),
            SrtpSessionParam::FecKey(vec![SrtpKeyParam {
                key_and_salt: "fk".into(),
                lifetime: None,
                mki_and_length: None,
            }]),
            SrtpSessionParam::Extension("MY_PARAM=1".into()),
        ],
    };
    assert_eq!(
        v.to_string(),
        "7 AEAD_AES_256_GCM inline:K1|1000 KDR=24 WSH=64 UNAUTHENTICATED_SRTP FEC_ORDER=FEC_SRTP FEC_KEY=inline:fk MY_PARAM=1"
    );
    assert_eq!(Crypto::from_str(&v.to_string()), Ok(v));
}

#[test]
fn law_candidate_written_reads_back() {
    let v = Candidate {
        foundation: "f".into(),
        component_id: 2,
        transport: "TCP".into(),
        priority: 1,
        address: CandidateAddress::FQDN("example.org".into()),
        port: 0,
        typ: CandidateType::Relay,
        rel_addr: Some(IpAddr::V4(Ipv4Addr::new(0, 0, 0, 0))),
        rel_port: Some(1),
        extensions: vec![("network-id".into(), "3".into())],
    };
    assert_eq!(
        v.to_string(),
        "f 2 TCP 1 example.org 0 typ relay raddr 0.0.0.0 rport 1 network-id 3"
    );
    assert_eq!(Candidate::from_str(&v.to_string()), Ok(v));
}

#[test]
fn law_setup_written_reads_back() {
    for v in [Setup::Active, Setup::Passive, Setup::ActPass, Setup::HoldConn] {
        assert_eq!(Setup::from_str(&v.to_string()), Ok(v));
    }
}

#[test]
fn law_ip_addr_written_reads_back() {
    let values = [
        IpAddr::V4(Ipv4Addr::new(255, 0, 10, 1)),
        IpAddr::V6(Ipv6Addr::new(0, 0, 0, 0, 0, 0, 0, 0)),
        IpAddr::V6(Ipv6Addr::new(0, 0, 0, 0, 0, 0xffff, 0x0102, 0x0304)),
        IpAddr::V6(Ipv6Addr::new(1, 0, 2, 0, 0, 3, 0, 0)),
    ];
    let texts = ["255.0.10.1", "::", "::ffff:1.2.3.4", "1:0:2::3:0:0"];
    for (v, t) in values.iter().zip(texts.iter()) {
        assert_eq!(v.to_string(), *t);
        assert_eq!(IpAddr::from_str(t), Ok(*v));
    }
    assert_eq!(
        IpAddr::from_str("2001:DB8:0:0:0:0:0:1").unwrap().to_string(),
        "2001:db8::1"
    );
    assert!(IpAddr::from_str("01.2.3.4").is_err());
    assert!(IpAddr::from_str("1.2.3.256").is_err());
    assert!(IpAddr::from_str("1::2::3").is_err());
}

#[test]
fn law_enum_names_read_back() {
    for v in [NetType::In, NetType::Tn, NetType::Atm, NetType::Pstn] {
        assert_eq!(NetType::from_str(&v.to_string()), Ok(v));
    }
    for v in [AddrType::Ip4, AddrType::Ip6] {
        assert_eq!(AddrType::from_str(&v.to_string()), Ok(v));
    }
    for v in [BandwidthType::As, BandwidthType::Ct, BandwidthType::Rr, BandwidthType::Rs] {
        assert_eq!(BandwidthType::from_str(&v.to_string()), Ok(v));
    }
    for v in [KeyMethod::Clear, KeyMethod::Base64, KeyMethod::Uri, KeyMethod::Prompt] {
        assert_eq!(KeyMethod::from_str(&v.to_string()), Ok(v));
    }
    for v in [
        MediaType::Audio,
        MediaType::Video,
        MediaType::Text,
        MediaType::Application,
        MediaType::Message,
        MediaType::Image,
    ] {
        assert_eq!(MediaType::from_str(&v.to_string()), Ok(v));
    }
    for v in [
        TransportProto::Udp,
        TransportProto::RtpAvp,
        TransportProto::RtpSavp,
        TransportProto::RtpSavpf,
    ] {
        assert_eq!(TransportProto::from_str(&v.to_string()), Ok(v));
    }
    for v in [
        Direction::SendOnly,
        Direction::RecvOnly,
        Direction::SendRecv,
        Direction::Inactive,
    ] {
        assert_eq!(Direction::from_str(&v.to_string()), Ok(v));
    }
}

#[test]
fn law_enum_names_any_case() {
    assert_eq!(BandwidthType::from_str("aS"), Ok(BandwidthType::As));
    assert_eq!(TransportProto::from_str("Rtp/SavpF"), Ok(TransportProto::RtpSavpf));
    assert_eq!(Direction::from_str("sEnDrEcV"), Ok(Direction::SendRecv));
    assert_eq!(Setup::from_str("HoldConn"), Ok(Setup::HoldConn));
    assert_eq!(
        KeyMethod::from_str("Prompt"),
        Err(ParseEnumError::Invalid("Prompt".into()))
    );
}

// ── attribute lookups ───────────────────────────────────────────────────────

#[test]
fn law_lookups_agree() {
    let m = media_with(vec![
        attr("a", Some("1")),
        attr("b", None),
        attr("a", Some("2")),
        attr("A", Some("3")),
    ]);
    for name in ["a", "b", "A", "c"] {
        let has = m.has_attribute(name);
        let first = m.get_first_attribute_value(name);
        let all = m.get_attribute_values(name);
        assert_eq!(has, first.is_ok());
        assert_eq!(has, all.is_ok());
        if has {
            assert_eq!(all.unwrap()[0], first.unwrap());
        }
    }
    assert_eq!(m.get_attribute_values("a"), Ok(vec![Some("1"), Some("2")]));
    assert_eq!(m.get_first_attribute_value("b"), Ok(None));
    assert_eq!(m.get_first_attribute_value("c"), Err(AttributeNotFoundError));
}

#[test]
fn law_typed_attribute_written_reads_back() {
    let v = RtpMap {
        payload_type: 0,
        encoding_name: "PCMU".into(),
        clock_rate: 8000,
        encoding_params: None,
    };
    let m = media_with(vec![
        attr("rtpmap", Some("x")),
        attr("other", Some("0 PCMA/8000")),
        attr("RTPMAP", Some(&v.value_text())),
    ]);
    let typed = m.attributes_typed::<RtpMap>();
    assert_eq!(typed.len(), 2);
    assert_eq!(
        typed[0],
        Err(AttributeError::UnsupportedFormat {
            val: "x".into(),
            attr: "rtpmap".into()
        })
    );
    assert_eq!(typed[1], Ok(v));
    assert_eq!(<RtpMap as TypedAttribute>::name(), "rtpmap");
    assert_eq!(<SsrcGroup as TypedAttribute>::name(), "ssrc-group");
    assert_eq!(<RtcpFb as TypedAttribute>::name(), "rtcp-fb");
}

#[test]
fn session_typed_attributes_keep_going_after_errors() {
    let session = Session {
        origin: Origin {
            username: None,
            sess_id: "1".into(),
            sess_version: 1,
            nettype: "IN".into(),
            addrtype: "IP4".into(),
            unicast_address: "10.0.0.1".into(),
        },
        session_name: "-".into(),
        session_description: None,
        uri: None,
        emails: vec![],
        phones: vec![],
        connection: None,
        bandwidths: vec![],
        times: vec![],
        time_zones: vec![],
        key: None,
        attributes: vec![
            attr("setup", None),
            attr("setup", Some("bogus")),
            attr("Setup", Some("ACTIVE")),
        ],
        medias: vec![],
    };
    let s = session.attributes_typed::<Setup>();
    assert_eq!(
        s,
        vec![
            Err(AttributeError::Other {
                error: "No value for the attribute".into(),
                attr: "setup".into()
            }),
            Err(AttributeError::Other {
                error: "Invalid Setup value bogus".into(),
                attr: "setup".into()
            }),
            Ok(Setup::Active),
        ]
    );
}

// ── setting a field from a value and reading it back ────────────────────────

#[test]
fn law_set_then_parse_gives_value() {
    let mut m = media_with(vec![]);
    m.set_from_mediatype(MediaType::Application);
    assert_eq!(m.media, "application");
    assert_eq!(m.try_parse_mediatype(), Ok(MediaType::Application));
    assert_eq!(m.try_mediatype(), Ok(MediaType::Application));
    m.set_from_transport_proto(TransportProto::Udp);
    assert_eq!(m.try_parse_transport_proto(), Ok(TransportProto::Udp));
    assert_eq!(m.port, 9);

    let mut o = Origin {
        username: None,
        sess_id: "1".into(),
        sess_version: 2,
        nettype: "x".into(),
        addrtype: "y".into(),
        unicast_address: "z".into(),
    };
    assert_eq!(o.try_parse_nettype(), Err(ParseEnumError::Invalid("x".into())));
    assert!(o.try_parse_unicast_address().is_err());
    o.set_from_nettype(NetType::Atm);
    o.set_from_addrtype(AddrType::Ip6);
    o.set_unicast_address(IpAddr::V6(Ipv6Addr::new(0xfe80, 0, 0, 0, 0, 0, 0, 1)));
    assert_eq!(o.nettype, "ATM");
    assert_eq!(o.unicast_address, "fe80::1");
    assert_eq!(o.try_parse_nettype(), Ok(NetType::Atm));
    assert_eq!(o.try_parse_addrtype(), Ok(AddrType::Ip6));
    assert_eq!(
        o.try_parse_unicast_address(),
        Ok(IpAddr::V6(Ipv6Addr::new(0xfe80, 0, 0, 0, 0, 0, 0, 1)))
    );

    let mut c = Connection {
        nettype: "IN".into(),
        addrtype: "IP4".into(),
        connection_address: "224.2.17.12/127".into(),
    };
    assert!(c.try_parse_connection_address().is_err());
    c.set_connection_address(IpAddr::V4(Ipv4Addr::new(224, 2, 17, 12)));
    assert_eq!(c.connection_address, "224.2.17.12");
    c.set_from_nettype(NetType::Tn);
    c.set_from_addrtype(AddrType::Ip4);
    assert_eq!(c.try_parse_nettype(), Ok(NetType::Tn));
    assert_eq!(c.try_parse_addrtype(), Ok(AddrType::Ip4));

    let mut b = Bandwidth {
        bwtype: "TIAS".into(),
        bandwidth: 64,
    };
    assert_eq!(b.try_parse_bwtype(), Err(ParseEnumError::Invalid("TIAS".into())));
    b.set_from_bwtype(BandwidthType::Rr);
    assert_eq!(b.try_parse_bwtype(), Ok(BandwidthType::Rr));
    assert_eq!(b.bandwidth, 64);

    let mut k = Key {
        method: "CLEAR".into(),
        encryption_key: Some("1234".into()),
    };
    assert!(k.try_parse_keymethod().is_err());
    k.set_from_keymethod(KeyMethod::Clear);
    assert_eq!(k.try_parse_keymethod(), Ok(KeyMethod::Clear));
}

// ── errors ──────────────────────────────────────────────────────────────────

#[test]
fn error_messages() {
    assert_eq!(
        AttributeError::NotFound("x".into()).to_string(),
        "Attribute x not found"
    );
    assert_eq!(
        AttributeError::ParamNotFound {
            param: "p".into(),
            attr: "a".into()
        }
        .to_string(),
        "Param p not found in a"
    );
    assert_eq!(
        AttributeError::InvalidParamValue {
            param: "p".into(),
            val: "v".into(),
            attr: "a".into()
        }
        .to_string(),
        "Invalid value v for Param p in a"
    );
    assert_eq!(
        AttributeError::UnsupportedFormat {
            val: "v".into(),
            attr: "a".into()
        }
        .to_string(),
        "Unsupported attribute format: v for a"
    );
    assert_eq!(
        AttributeError::UnexpectedTrailingItem {
            val: "v".into(),
            attr: "a".into()
        }
        .to_string(),
        "Unexpected trailing item v for in a"
    );
    assert_eq!(
        AttributeError::Other {
            error: "e".into(),
            attr: "a".into()
        }
        .to_string(),
        "a: e"
    );
    assert_eq!(
        ParseEnumError::Invalid("q".into()).to_string(),
        "Failed to parse q as an enum type"
    );
    assert_eq!(AttributeNotFoundError.to_string(), "Attribute not found");
    assert_eq!(
        IpAddr::from_str("x").unwrap_err().to_string(),
        "invalid IP address syntax"
    );
}

#[test]
fn srtp_key_param_errors() {
    assert_eq!(
        SrtpKeyParam::from_str("inline:K|2^20|1:4|extra"),
        Err(AttributeError::UnexpectedTrailingItem {
            val: "extra".into(),
            attr: "crypto".into()
        })
    );
    assert_eq!(
        SrtpKeyParam::from_str("inline:K|2^32"),
        Err(AttributeError::InvalidParamValue {
            param: "Lifetime".into(),
            val: "32(expected 0-32)".into(),
            attr: "crypto".into()
        })
    );
    assert_eq!(
        SrtpKeyParam::from_str("inline:K|1:0"),
        Err(AttributeError::InvalidParamValue {
            param: "MKI length".into(),
            val: "0".into(),
            attr: "crypto".into()
        })
    );
    assert_eq!(
        SrtpKeyParam::from_str("inline:K|2^20|7"),
        Err(AttributeError::ParamNotFound {
            param: "MKI and Length".into(),
            attr: "crypto".into()
        })
    );
    assert_eq!(
        SrtpKeyParam::from_str("inline:K|x:4"),
        Err(AttributeError::InvalidParamValue {
            param: "MKI".into(),
            val: "x:4".into(),
            attr: "crypto".into()
        })
    );
    assert_eq!(
        SrtpKeyParam::from_str("inlne:K"),
        Err(AttributeError::InvalidParamValue {
            param: "Strp Key and Salt".into(),
            val: "inlne:K".into(),
            attr: "crypto".into()
        })
    );
    assert_eq!(
        SrtpKeyParam::from_str("INLINE:K|2^31").unwrap().lifetime,
        Some(2147483648)
    );
}

#[test]
fn crypto_session_param_errors() {
    assert_eq!(
        Crypto::from_str("1 X inline:K KDR=25"),
        Err(AttributeError::InvalidParamValue {
            param: "KDR".into(),
            val: "25(expected range 0..24)".into(),
            attr: "crypto".into()
        })
    );
    assert_eq!(
        Crypto::from_str("1 X inline:K wsh=10"),
        Err(AttributeError::InvalidParamValue {
            param: "WSH".into(),
            val: "10".into(),
            attr: "crypto".into()
        })
    );
    assert_eq!(
        Crypto::from_str("1 X inline:K FEC_ORDER=NONE"),
        Err(AttributeError::InvalidParamValue {
            param: "FEC order".into(),
            val: "FEC_ORDER=NONE".into(),
            attr: "crypto".into()
        })
    );
    assert_eq!(
        Crypto::from_str("1 X"),
        Err(AttributeError::ParamNotFound {
            param: "Key params".into(),
            attr: "crypto".into()
        })
    );
    assert_eq!(
        Crypto::from_str("1"),
        Err(AttributeError::ParamNotFound {
            param: "CryptoSuite".into(),
            attr: "crypto".into()
        })
    );
    let c = Crypto::from_str("1 X inline:K fec_key=inline:MixedCase unknown_param").unwrap();
    assert_eq!(
        c.session_params,
        vec![
            SrtpSessionParam::FecKey(vec![SrtpKeyParam {
                key_and_salt: "MixedCase".into(),
                lifetime: None,
                mki_and_length: None,
            }]),
            SrtpSessionParam::Extension("UNKNOWN_PARAM".into()),
        ]
    );
}

#[test]
fn fingerprint_hex_pieces() {
    assert_eq!(
        Fingerprint::from_str("sha-256 0aFf:01").unwrap().fingerprint,
        vec![0x0a, 0xff, 0x01]
    );
    assert_eq!(
        Fingerprint::from_str("md-5 ABC"),
        Err(AttributeError::InvalidParamValue {
            param: "Hash function".into(),
            val: "ABC".into(),
            attr: "fingerprint".into()
        })
    );
    assert_eq!(
        Fingerprint::from_str("md-5 AB:G0"),
        Err(AttributeError::InvalidParamValue {
            param: "Hash function".into(),
            val: "G0".into(),
            attr: "fingerprint".into()
        })
    );
    assert_eq!(
        Fingerprint::from_str("md-5 ÄB"),
        Err(AttributeError::InvalidParamValue {
            param: "Hash function".into(),
            val: "ÄB".into(),
            attr: "fingerprint".into()
        })
    );
    assert_eq!(
        Fingerprint::from_str("x "),
        Ok(Fingerprint {
            hash_func: HashFunc::Other("x".into()),
            fingerprint: vec![]
        })
    );
}

#[test]
fn other_attribute_errors() {
    assert_eq!(
        Rtcp::from_str("9 IN IP4 1.2.3.4 extra"),
        Err(AttributeError::UnexpectedTrailingItem {
            val: "extra".into(),
            attr: "rtcp".into()
        })
    );
    assert_eq!(
        ExtMap::from_str("1/sideways urn:x"),
        Err(AttributeError::InvalidParamValue {
            param: "Direction".into(),
            val: "sideways".into(),
            attr: "extmap".into()
        })
    );
    assert_eq!(
        ExtMap::from_str("1"),
        Err(AttributeError::ParamNotFound {
            param: "URI".into(),
            attr: "extmap".into()
        })
    );
    assert_eq!(
        SsrcGroup::from_str("FID 1 x"),
        Err(AttributeError::InvalidParamValue {
            param: "Ssrc id".into(),
            val: "x".into(),
            attr: "ssrc-group".into()
        })
    );
    assert_eq!(
        Ssrc::from_str("x cname"),
        Err(AttributeError::InvalidParamValue {
            param: "Ssrc id".into(),
            val: "x".into(),
            attr: "ssrc".into()
        })
    );
    assert_eq!(
        SsrcGroup::from_str("ls 1").unwrap().semantics,
        GroupSemantics::Other("ls".into())
    );
    assert_eq!(Group::from_str("fec 1").unwrap().semantics, GroupSemantics::FEC);
}

// ── the textual form of a value read from text is canonical ─────────────────

#[test]
fn law_canonical_form_reads_back() {
    let g = Group::from_str("fid a b").unwrap();
    assert_eq!(g.to_string(), "FID a b");
    assert_eq!(Group::from_str(&g.to_string()), Ok(g));

    let c = Crypto::from_str(
        "1 aes_cm_128_hmac_sha1_80 INLINE:K|1048576|+1:04 kdr=+7 fec_key=inline:k my_ext",
    )
    .unwrap();
    assert_eq!(
        c.to_string(),
        "1 AES_CM_128_HMAC_SHA1_80 inline:K|2^20|1:4 KDR=7 FEC_KEY=inline:k MY_EXT"
    );
    assert_eq!(Crypto::from_str(&c.to_string()), Ok(c));

    let cand =
        Candidate::from_str("1 1 udp 1 HOST.example 1 TYP HoSt RADDR ::1 rport 5 k v").unwrap();
    assert_eq!(
        cand.to_string(),
        "1 1 udp 1 HOST.example 1 typ host raddr ::1 rport 5 k v"
    );
    assert_eq!(Candidate::from_str(&cand.to_string()), Ok(cand));

    let r = Rtcp::from_str("+9 in ip4 1.2.3.4").unwrap();
    assert_eq!(r.to_string(), "9 IN IP4 1.2.3.4");
    assert_eq!(Rtcp::from_str(&r.to_string()), Ok(r));

    let f = Fmtp::from_str("097 a=b;c").unwrap();
    assert_eq!(f.to_string(), "97 a=b;c");
    assert_eq!(Fmtp::from_str(&f.to_string()), Ok(f));

    let s = Ssrc::from_str("+1 CNAME:x").unwrap();
    assert_eq!(s.to_string(), "1 cname:x");
    assert_eq!(Ssrc::from_str(&s.to_string()), Ok(s));

    let m = RtpMap::from_str("+96 opus/048000").unwrap();
    assert_eq!(m.to_string(), "96 opus/48000");
    assert_eq!(RtpMap::from_str(&m.to_string()), Ok(m));

    let e = ExtMap::from_str("01/SENDONLY urn a b").unwrap();
    assert_eq!(e.to_string(), "1/sendonly urn a b");
    assert_eq!(ExtMap::from_str(&e.to_string()), Ok(e));

    let fp = Fingerprint::from_str("SHA-256 ab:cd").unwrap();
    assert_eq!(fp.to_string(), "sha-256 AB:CD");
    assert_eq!(Fingerprint::from_str(&fp.to_string()), Ok(fp));

    let fb = RtcpFb::from_str("+96 nack pli extra").unwrap();
    assert_eq!(fb.to_string(), "96 nack pli");
    assert_eq!(RtcpFb::from_str(&fb.to_string()), Ok(fb));

    let sg = SsrcGroup::from_str("fid +1 02").unwrap();
    assert_eq!(sg.to_string(), "FID 1 2");
    assert_eq!(SsrcGroup::from_str(&sg.to_string()), Ok(sg));

    let k = SrtpKeyParam::from_str("INLINE:k|+10").unwrap();
    assert_eq!(k.to_string(), "inline:k|10");
    assert_eq!(SrtpKeyParam::from_str(&k.to_string()), Ok(k));

    let a = IpAddr::from_str("0:0::FFFF:1.2.3.4").unwrap();
    assert_eq!(a.to_string(), "::ffff:1.2.3.4");
    assert_eq!(IpAddr::from_str(&a.to_string()), Ok(a));
}

#[test]
fn canonical_form_exceptions() {
    // An empty hash value is written without it, and that text does not read.
    let fp = Fingerprint::from_str("sha-1 ").unwrap();
    assert_eq!(fp.to_string(), "sha-1");
    assert!(Fingerprint::from_str(&fp.to_string()).is_err());
    // A last empty parameter after another one is trimmed away.
    let f = Fmtp::from_str("97 a;").unwrap();
    assert_eq!(f.format_specific_params.len(), 2);
    assert_eq!(f.to_string(), "97 a");
    assert_eq!(
        Fmtp::from_str(&f.to_string()).unwrap().format_specific_params.len(),
        1
    );
}
