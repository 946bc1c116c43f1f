use fallible_iterator::FallibleIterator;
use sdp_types::{
    AddrType, Attribute, AttributeError, AttributeNotFoundError, Candidate, CandidateAddress,
    CandidateType, Crypto, CryptoSuite, ExtMap, FecOrder, Fingerprint, Fmtp, FmtpParam, Group,
    HashFunc, IpAddr, Ipv4Addr, Media, NetType, Origin, Rtcp, RtcpFb, RtpMap, Session, Setup,
    SrtpKeyParam, SrtpSessionParam, Ssrc, Time,
};

#[test]
fn parse_media_attributes() {
    let media = Media {
        media: "video".into(),
        port: 51372,
        num_ports: Some(2),
        proto: "RTP/AVP".into(),
        fmt: "99 100".into(),
        media_title: None,
        connections: vec![],
        bandwidths: vec![],
        key: None,
        attributes: vec![
            Attribute {
                attribute: "rtpmap".into(),
                value: Some("99 h263-1998/90000".into()),
            },
            Attribute {
                attribute: "rtpmap".into(),
                value: Some("100 h264/90000".into()),
            },
            Attribute {
                attribute: "rtpmap".into(),
                value: None,
            },
            Attribute {
                attribute: "rtpmap".into(),
                value: Some(
                    RtpMap {
                        payload_type: 101,
                        encoding_name: "L16".into(),
                        clock_rate: 16000,
                        encoding_params: Some("2".into()),
                    }
                    .to_string(),
                ),
            },
            Attribute {
                attribute: "fmtp".into(),
                value: Some(
                    Fmtp {
                        fmt: 100,
                        format_specific_params: Vec::from([
                            FmtpParam {
                                param: "profile-level-id".to_string(),
                                val: Some("42e016".to_string()),
                            },
                            FmtpParam {
                                param: "max-mbps".to_string(),
                                val: Some("108000".to_string()),
                            },
                            FmtpParam {
                                param: "max-fs".to_string(),
                                val: Some("3600".to_string()),
                            },
                        ]),
                    }
                    .to_string(),
                ),
            },
            Attribute {
                attribute: "rtcp".into(),
                value: Some(
                    Rtcp {
                        port: 53020,
                        nettype: NetType::In,
                        addrtype: AddrType::Ip4,
                        connection_address: IpAddr::V4(Ipv4Addr::new(126, 16, 64, 4)),
                    }
                    .to_string(),
                ),
            },
            Attribute {
                attribute: "fingerprint".into(),
                value: Some(
                    Fingerprint {
                        hash_func: HashFunc::Other(("custom").to_string()),
                        fingerprint: [0xA1, 0xB2, 0xC3, 0xD4, 0xE5, 0xF6].to_vec(),
                    }
                    .to_string(),
                ),
            },
        ],
    };

    assert!(media.has_attribute("rtpmap"));
    assert!(media.has_attribute("rtcp"));
    assert!(!media.has_attribute("foo"));

    assert_eq!(
        media.get_first_attribute_value("rtpmap"),
        Ok(Some("99 h263-1998/90000"))
    );
    assert_eq!(
        media.get_first_attribute_value("rtcp"),
        Ok(Some("53020 IN IP4 126.16.64.4"))
    );
    assert_eq!(
        media.get_first_attribute_value("foo"),
        Err(AttributeNotFoundError)
    );

    assert_eq!(
        media
            .get_attribute_values("rtpmap")
            .unwrap()
            .into_iter()
            .collect::<Vec<_>>(),
        &[
            Some("99 h263-1998/90000"),
            Some("100 h264/90000"),
            None,
            Some("101 L16/16000/2"),
        ]
    );

    let v = media
        .attributes_typed::<RtpMap>()
        .into_iter()
        .collect::<Vec<Result<RtpMap, AttributeError>>>();
    assert_eq!(v[0].as_ref().unwrap().clock_rate, 90000);
    assert_eq!(v[1].as_ref().unwrap().encoding_name, "h264");
    assert_eq!(v[2], Err(AttributeError::Other {
            error: "No value for the attribute".to_string(),
            attr: "rtpmap".to_string()
        }));
    assert_eq!(
        v[3].as_ref().unwrap().encoding_params.as_ref().unwrap(),
        "2"
    );

    let v = media
        .attributes_typed::<RtpMap>()
        .into_iter()
        .filter(|attr| {
            let Ok(at) = attr else { return false };
            at.payload_type == 99
        })
        .collect::<Vec<_>>();
    assert_eq!(v.len(), 1);
    assert_eq!(v[0].as_ref().unwrap().encoding_name, "h263-1998");

    assert_eq!(
        media.get_first_attribute_value("fmtp"),
        Ok(Some(
            "100 profile-level-id=42e016;max-mbps=108000;max-fs=3600"
        ))
    );

    let r = media.attributes_typed::<Rtcp>().into_iter().collect::<Vec<_>>();
    assert_eq!(r[0].as_ref().unwrap().addrtype, AddrType::Ip4);
    assert_eq!(r[0].as_ref().unwrap().port, 53020);

    assert_eq!(
        media
            .get_attribute_values("fingerprint")
            .unwrap()
            .into_iter()
            .collect::<Vec<_>>(),
        &[Some("custom A1:B2:C3:D4:E5:F6")]
    );

    assert!(media.get_attribute_values("foo").is_err());
}

#[test]
fn parse_session_attributes() {
    let session = Session {
        origin: Origin {
            username: Some("jdoe".into()),
            sess_id: "2890844526".into(),
            sess_version: 2890842807,
            nettype: "IN".into(),
            addrtype: "IP4".into(),
            unicast_address: "10.47.16.5".into(),
        },
        session_name: "SDP Seminar".into(),
        session_description: None,
        uri: None,
        emails: vec![],
        phones: vec![],
        connection: None,
        bandwidths: vec![],
        times: vec![Time {
            start_time: 0,
            stop_time: 0,
            repeats: vec![],
        }],
        time_zones: vec![],
        key: None,
        attributes: vec![
            Attribute {
                attribute: "rtpmap".into(),
                value: Some("99 h263-1998/90000".into()),
            },
            Attribute {
                attribute: "rtpmap".into(),
                value: Some("100 h264/90000".into()),
            },
            Attribute {
                attribute: "rtpmap".into(),
                value: Some(
                    RtpMap {
                        payload_type: 101,
                        encoding_name: "L16".into(),
                        clock_rate: 16000,
                        encoding_params: Some("2".into()),
                    }
                    .to_string(),
                ),
            },
            Attribute {
                attribute: "rtcp".into(),
                value: None,
            },
            Attribute {
                attribute: "extmap".into(),
                value: Some(
                    ExtMap {
                        id: 1,
                        direction: None,
                        uri: "URI-toffset".to_string(),
                        attributes: None,
                    }
                    .to_string(),
                ),
            },
        ],
        medias: vec![],
    };

    assert!(session.has_attribute("rtpmap"));
    assert!(session.has_attribute("rtcp"));
    assert!(!session.has_attribute("foo"));

    assert_eq!(
        session.get_first_attribute_value("rtpmap"),
        Ok(Some("99 h263-1998/90000"))
    );

    let v = session
        .get_first_attribute_value("rtpmap")
        .unwrap()
        .unwrap();
    let rtpmap = RtpMap::from_str(v).unwrap();
    assert_eq!(rtpmap.clock_rate, 90000);
    assert_eq!(rtpmap.encoding_name, "h263-1998");
    assert_ne!(rtpmap.encoding_name, "h263");
    assert_ne!(rtpmap.encoding_params, Some("2".to_string()));
    assert_eq!(rtpmap.payload_type, 99);

    assert_eq!(session.get_first_attribute_value("rtcp"), Ok(None));
    assert_eq!(
        session.get_first_attribute_value("foo"),
        Err(AttributeNotFoundError)
    );

    assert_eq!(
        session
            .get_attribute_values("rtpmap")
            .unwrap()
            .into_iter()
            .collect::<Vec<_>>(),
        &[
            Some("99 h263-1998/90000"),
            Some("100 h264/90000"),
            Some("101 L16/16000/2")
        ]
    );
    assert_eq!(
        session
            .get_attribute_values("rtcp")
            .unwrap()
            .into_iter()
            .collect::<Vec<_>>(),
        &[None]
    );

    assert_eq!(
        session
            .get_attribute_values("extmap")
            .unwrap()
            .into_iter()
            .collect::<Vec<_>>(),
        &[Some("1 URI-toffset")]
    );

    assert!(session.get_attribute_values("foo").is_err());

    let a = fallible_iterator::convert(session.attributes_typed::<RtpMap>().into_iter())
        .collect::<Vec<_>>()
        .expect("Valid vector of attributes");
    assert_eq!(a[2].encoding_name, "L16");
    assert_eq!(a[0].payload_type, 99);
}

#[test]
fn write_crypto_attribute() {
    let crypto = Crypto {
        tag: 1,
        crypto_suite: CryptoSuite::AesCm128HmacSha1_80,
        key_params: vec![
            SrtpKeyParam {
                key_and_salt: "WVNfX19zZW1jdGwgKCkgewkyMjA7fQp9CnVubGVz".to_string(),
                lifetime: Some(1048576),
                mki_and_length: Some((1, 4)),
            },
            SrtpKeyParam {
                key_and_salt: "WVNfX19zZW1jdGwgKCkgewkyMjA7fQp9CnVubGVz".to_string(),
                lifetime: Some(1048576),
                mki_and_length: Some((1, 4)),
            },
        ],
        session_params: vec![SrtpSessionParam::FecOrder(FecOrder::SrtpFec)],
    };

    assert_eq!(
        crypto.to_string(),
        "1 AES_CM_128_HMAC_SHA1_80 inline:WVNfX19zZW1jdGwgKCkgewkyMjA7fQp9CnVubGVz|2^20|1:4;inline:WVNfX19zZW1jdGwgKCkgewkyMjA7fQp9CnVubGVz|2^20|1:4 FEC_ORDER=SRTP_FEC"
    );
}

#[test]
fn write_candidate() {
    let candidate = Candidate {
        foundation: "abcd/1234".into(),
        component_id: 1,
        transport: "UDP".into(),
        priority: 2130706432,
        address: CandidateAddress::IpAddr(IpAddr::V4(Ipv4Addr::new(192, 168, 0, 1))),
        port: 49152,
        typ: CandidateType::Srflx,
        rel_addr: Some(IpAddr::V4(Ipv4Addr::new(10, 0, 0, 1))),
        rel_port: Some(49153),
        extensions: vec![("tcptype".to_string(), "active".to_string())],
    };

    assert_eq!(
        candidate.to_string(),
        "abcd/1234 1 UDP 2130706432 192.168.0.1 49152 typ srflx raddr 10.0.0.1 rport 49153 tcptype active"
    );
}

#[test]
fn test_attribute_errors() {
    // Test RtpMap error paths
    assert_eq!(
        "99".parse::<RtpMap>().unwrap_err(),
        AttributeError::UnsupportedFormat {
            val: "99".to_string(),
            attr: "rtpmap".to_string()
        }
    );
    assert_eq!(
        "abc 90000".parse::<RtpMap>().unwrap_err(),
        AttributeError::InvalidParamValue {
            param: "Payload type".to_string(),
            val: "abc".to_string(),
            attr: "rtpmap".to_string()
        }
    );
    assert_eq!(
        "200 enc/90000".parse::<RtpMap>().unwrap_err(),
        AttributeError::InvalidParamValue {
            param: "Payload type".to_string(),
            val: "200(expected 0-127)".to_string(),
            attr: "rtpmap".to_string()
        }
    );
    assert_eq!(
        "99 ".parse::<RtpMap>().unwrap_err(),
        AttributeError::ParamNotFound {
            param: "Clock rate".to_string(),
            attr: "rtpmap".to_string()
        }
    );
    assert_eq!(
        "99 /".parse::<RtpMap>().unwrap_err(),
        AttributeError::InvalidParamValue {
            param: "Clock rate".to_string(),
            val: "".to_string(),
            attr: "rtpmap".to_string()
        }
    );

    // Test Fmtp error paths
    assert_eq!(
        "invalid".parse::<Fmtp>().unwrap_err(),
        AttributeError::UnsupportedFormat {
            val: "invalid".to_string(),
            attr: "fmtp".to_string()
        }
    );
    assert_eq!(
        "abc profile=1".parse::<Fmtp>().unwrap_err(),
        AttributeError::InvalidParamValue {
            param: "fmtp".to_string(),
            val: "abc".to_string(),
            attr: "fmtp".to_string()
        }
    );

    // Test Rtcp error paths
    assert_eq!(
        "".parse::<Rtcp>().unwrap_err(),
        AttributeError::InvalidParamValue {
            param: "Port".to_string(),
            val: "".to_string(),
            attr: "rtcp".to_string()
        }
    );
    assert_eq!(
        "abc IN IP4 127.0.0.1".parse::<Rtcp>().unwrap_err(),
        AttributeError::InvalidParamValue {
            param: "Port".to_string(),
            val: "abc".to_string(),
            attr: "rtcp".to_string()
        }
    );
    assert_eq!(
        "53020 invalid IP4 127.0.0.1".parse::<Rtcp>().unwrap_err(),
        AttributeError::InvalidParamValue {
            param: "Network type".to_string(),
            val: "invalid".to_string(),
            attr: "rtcp".to_string()
        }
    );

    // Test Fingerprint error paths
    assert_eq!(
        "".parse::<Fingerprint>().unwrap_err(),
        AttributeError::ParamNotFound {
            param: "Hash value".to_string(),
            attr: "fingerprint".to_string()
        }
    );
    assert_eq!(
        "SHA-1".parse::<Fingerprint>().unwrap_err(),
        AttributeError::ParamNotFound {
            param: "Hash value".to_string(),
            attr: "fingerprint".to_string()
        }
    );

    // Test Candidate error paths
    assert_eq!(
        "".parse::<Candidate>().unwrap_err(),
        AttributeError::ParamNotFound {
            param: "Component id".to_string(),
            attr: "candidate".to_string()
        }
    );
    assert_eq!(
        "1 1 UDP 100".parse::<Candidate>().unwrap_err(),
        AttributeError::ParamNotFound {
            param: "Address".to_string(),
            attr: "candidate".to_string()
        }
    );

    // Test ExtMap error paths
    assert_eq!(
        "".parse::<ExtMap>().unwrap_err(),
        AttributeError::InvalidParamValue {
            param: "Id".to_string(),
            val: "".to_string(),
            attr: "extmap".to_string()
        }
    );
    assert_eq!(
        "999999 http://example.com".parse::<ExtMap>().unwrap_err(),
        AttributeError::InvalidParamValue {
            param: "Id".to_string(),
            val: "999999".to_string(),
            attr: "extmap".to_string()
        }
    );

    // Test Group error paths
    assert_eq!(
        "".parse::<Group>().unwrap_err(),
        AttributeError::ParamNotFound {
            param: "Media identification tags".to_string(),
            attr: "group".to_string()
        }
    );
    assert_eq!(
        "LS".parse::<Group>().unwrap_err(),
        AttributeError::ParamNotFound {
            param: "Media identification tags".to_string(),
            attr: "group".to_string()
        }
    );

    // Test Ssrc error paths
    assert_eq!(
        "".parse::<Ssrc>().unwrap_err(),
        AttributeError::ParamNotFound {
            param: "Ssrc id".to_string(),
            attr: "ssrc".to_string()
        }
    );
    assert_eq!(
        "abc".parse::<Ssrc>().unwrap_err(),
        AttributeError::ParamNotFound {
            param: "Ssrc id".to_string(),
            attr: "ssrc".to_string()
        }
    );

    // Test Setup error paths
    let setup_err = "foo".parse::<Setup>().err().unwrap();
    assert!(matches!(setup_err, AttributeError::Other { .. }));
    assert_eq!(setup_err.to_string(), "setup: Invalid Setup value foo");

    // Test Crypto error paths
    assert_eq!(
        "".parse::<Crypto>().unwrap_err(),
        AttributeError::InvalidParamValue {
            param: "Tag".to_string(),
            val: "".to_string(),
            attr: "crypto".to_string()
        }
    );
    assert_eq!(
        "abc AES_CM_128_HMAC_SHA1_32 inline:key"
            .parse::<Crypto>()
            .unwrap_err(),
        AttributeError::InvalidParamValue {
            param: "Tag".to_string(),
            val: "abc".to_string(),
            attr: "crypto".to_string()
        }
    );

    // Test RtcpFb error paths
    assert_eq!(
        "".parse::<RtcpFb>().unwrap_err(),
        AttributeError::InvalidParamValue {
            param: "Payload format".to_string(),
            val: "".to_string(),
            attr: "rtcp-fb".to_string()
        }
    );
    assert_eq!(
        "*".parse::<RtcpFb>().unwrap_err(),
        AttributeError::ParamNotFound {
            param: "Rtcp feedback value".to_string(),
            attr: "rtcp-fb".to_string()
        }
    );
    assert_eq!(
        "1 ack ccfb".parse::<RtcpFb>().unwrap_err(),
        AttributeError::InvalidParamValue {
            param: "Payload type".to_string(),
            val: "1(expected wildcard (*))".to_string(),
            attr: "rtcp-fb".to_string()
        }
    );

    // Test attribute_typed with missing value
    let media = Media {
        media: "video".into(),
        port: 1234,
        num_ports: None,
        proto: "RTP/SAVPF".into(),
        fmt: "".into(),
        media_title: None,
        connections: vec![],
        bandwidths: vec![],
        key: None,
        attributes: vec![Attribute {
            attribute: "rtpmap".into(),
            value: None,
        }],
    };
    assert_eq!(
        media
            .attributes_typed::<RtpMap>()
            .into_iter()
            .collect::<Vec<Result<RtpMap, AttributeError>>>()
            .remove(0)
            .unwrap_err(),
        AttributeError::Other {
            error: "No value for the attribute".to_string(),
            attr: "rtpmap".to_string()
        }
    );
}
