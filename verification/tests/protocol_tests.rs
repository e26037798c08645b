use chiyocore::bytes::{box_array, is_utf8, trim_slice_nils};
use chiyocore::command::{parse_host_command, DecodeError, HostCommand, HostCommandType, TextType};
use chiyocore::framing::{frame_response, next_frame, FrameScan};
use chiyocore::protocol::{
    Ack, Battery, ChannelInfo, CompanionSer, ContactEnd, ContactMsgRecv, ContactStart, CurrentTime,
    CustomVars, ErrResponse, GetMessageRes, LoginSuccess, MsgSent, NullPaddedSlice, OkResponse,
    PrivateKeyResponse, ResponseCodes, RfLogData, SelfInfo, SignStart, SignatureResponse,
};

#[test]
fn trim_slice_nils_drops_only_trailing_zeros() {
    assert_eq!(trim_slice_nils(&[1, 0, 2, 0, 0]), &[1, 0, 2]);
    assert_eq!(trim_slice_nils(&[0, 0, 0]), &[] as &[u8]);
    assert_eq!(trim_slice_nils(&[]), &[] as &[u8]);
    assert_eq!(trim_slice_nils(&[7]), &[7]);
}

#[test]
fn app_start_decodes_every_field() {
    let mut p = vec![1u8, 3, 9, 9, 9, 9, 9, 9];
    p.extend_from_slice(b"mccli");
    match parse_host_command(&p) {
        Ok(HostCommand::AppStart { app_ver, reserved, app_name }) => {
            assert_eq!(app_ver, 3);
            assert_eq!(reserved, [9u8; 6]);
            assert_eq!(app_name, b"mccli".to_vec());
        }
        other => panic!("unexpected {:?}", other),
    }
}

#[test]
fn empty_request_is_unexpected_end() {
    assert_eq!(parse_host_command(&[]), Err(DecodeError::UnexpectedEnd));
}

#[test]
fn unknown_command_is_invalid_bit_pattern() {
    assert_eq!(parse_host_command(&[0xFF]), Err(DecodeError::InvalidBitPattern));
    assert_eq!(parse_host_command(&[0]), Err(DecodeError::InvalidBitPattern));
}

#[test]
fn short_app_start_is_unexpected_end() {
    assert_eq!(parse_host_command(&[1, 2, 3]), Err(DecodeError::UnexpectedEnd));
}

#[test]
fn bad_text_type_is_invalid_bit_pattern() {
    let p = [2u8, 9, 0, 1, 2, 3, 4, 1, 2, 3, 4, 5, 6];
    assert_eq!(parse_host_command(&p), Err(DecodeError::InvalidBitPattern));
}

#[test]
fn non_utf8_name_is_invalid_utf8() {
    let p = [8u8, 0xC3, 0x28];
    assert_eq!(parse_host_command(&p), Err(DecodeError::InvalidUtf8));
}

#[test]
fn send_text_message_decodes() {
    let mut p = vec![2u8, 0, 1, 0x78, 0x56, 0x34, 0x12, 1, 2, 3, 4, 5, 6];
    p.extend_from_slice(b"hi");
    assert_eq!(
        parse_host_command(&p),
        Ok(HostCommand::SendTxtMsg {
            txt_type: TextType::PlainText,
            attempt: 1,
            timestamp: 0x12345678,
            destination: [1, 2, 3, 4, 5, 6],
            text: b"hi".to_vec(),
        })
    );
}

#[test]
fn channel_message_decodes() {
    let p = [3u8, 0, 4, 1, 0, 0, 0, b'y', b'o'];
    assert_eq!(
        parse_host_command(&p),
        Ok(HostCommand::SendChannelTxtMsg {
            txt_type: TextType::PlainText,
            idx: 4,
            timestamp: 1,
            text: b"yo".to_vec(),
        })
    );
}

#[test]
fn custom_var_splits_at_first_colon() {
    let mut p = vec![41u8];
    p.extend_from_slice(b"wifi_ssid:a:b");
    assert_eq!(
        parse_host_command(&p),
        Ok(HostCommand::SetCustomVar { key: b"wifi_ssid".to_vec(), value: b"a:b".to_vec() })
    );
    let mut q = vec![41u8];
    q.extend_from_slice(b"nocolon");
    assert_eq!(parse_host_command(&q), Ok(HostCommand::MalformedCustomVar));
}

#[test]
fn unimplemented_commands_are_reported() {
    assert_eq!(
        parse_host_command(&[16]),
        Ok(HostCommand::Unimplemented { command: HostCommandType::ShareContact })
    );
    assert_eq!(HostCommandType::ShareContact.code(), 16);
    assert_eq!(HostCommandType::from_repr(54), Some(HostCommandType::SetFloodScope));
    assert_eq!(HostCommandType::from_repr(28), None);
}

#[test]
fn simple_commands_decode() {
    assert_eq!(parse_host_command(&[4]), Ok(HostCommand::GetContacts));
    assert_eq!(parse_host_command(&[7, 1]), Ok(HostCommand::SendSelfAdvert { flood: true }));
    assert_eq!(parse_host_command(&[7]), Ok(HostCommand::SendSelfAdvert { flood: false }));
    assert_eq!(
        parse_host_command(&[6, 1, 2, 0, 0]),
        Ok(HostCommand::SetDeviceTime { timestamp: 0x0201 })
    );
    assert_eq!(parse_host_command(&[6, 1]), Err(DecodeError::UnexpectedEnd));
    assert_eq!(parse_host_command(&[12, 22]), Ok(HostCommand::SetTxPower { power: 22 }));
}

#[test]
fn text_type_codes() {
    assert_eq!(TextType::from_code(0), Some(TextType::PlainText));
    assert_eq!(TextType::from_code(2), Some(TextType::SignedPlainText));
    assert_eq!(TextType::from_code(3), None);
    assert_eq!(TextType::CliData.code(), 1);
}

#[test]
fn ok_and_err_responses() {
    assert_eq!(OkResponse { code: None }.companion_serialize(), vec![0u8]);
    assert_eq!(OkResponse { code: Some(7) }.companion_serialize(), vec![0u8, 7, 0, 0, 0]);
    assert_eq!(OkResponse { code: Some(7) }.ser_size(), 5);
    assert_eq!(ErrResponse { code: Some(2) }.companion_serialize(), vec![0u8, 2]);
    assert_eq!(ErrResponse { code: None }.ser_size(), 1);
}

#[test]
fn result_responses_serialize_either_side() {
    let ok: Result<OkResponse, ErrResponse> = Ok(OkResponse { code: None });
    let err: Result<OkResponse, ErrResponse> = Err(ErrResponse { code: Some(1) });
    assert_eq!(ok.companion_serialize(), vec![0u8]);
    assert_eq!(err.companion_serialize(), vec![0u8, 1]);
}

#[test]
fn fixed_responses_encode() {
    assert_eq!(
        Battery { battery_voltage: 0x0102, used_storage: 3, total_storage: 4 }.companion_serialize(),
        vec![0x0C, 2, 1, 3, 0, 0, 0, 4, 0, 0, 0]
    );
    assert_eq!(ContactStart { contacts: 2 }.companion_serialize(), vec![2, 2, 0, 0, 0]);
    assert_eq!(ContactEnd { last_mod: 1 }.companion_serialize(), vec![4, 1, 0, 0, 0]);
    assert_eq!(Ack { code: [1, 2, 3, 4] }.companion_serialize(), vec![0x82, 1, 2, 3, 4]);
    assert_eq!(CurrentTime { time: 0x01020304 }.companion_serialize(), vec![9, 4, 3, 2, 1]);
    assert_eq!(
        LoginSuccess { reserved: 0, prefix: [1, 2, 3, 4, 5, 6] }.companion_serialize(),
        vec![0x85, 0, 1, 2, 3, 4, 5, 6]
    );
    assert_eq!(SignStart { reserved: 0, max_len: 16384 }.companion_serialize(), vec![0x13, 0, 0, 0x40, 0, 0]);
    let sig = SignatureResponse { signature: [5u8; 64] }.companion_serialize();
    assert_eq!(sig.len(), 65);
    assert_eq!(sig[0], 0x20);
    let key = PrivateKeyResponse { key: [6u8; 64] }.companion_serialize();
    assert_eq!(key[0], 0x0e);
    assert_eq!(key.len(), 65);
    assert_eq!(
        MsgSent { is_flood: true, expected_ack: [9, 8, 7, 6], suggested_timeout: 1000 }
            .companion_serialize(),
        vec![6, 1, 9, 8, 7, 6, 0xE8, 3, 0, 0]
    );
}

#[test]
fn rf_log_data_keeps_low_bytes() {
    let log = RfLogData::new(-90, 12, vec![1, 2]);
    assert_eq!(log.rssi, -90);
    assert_eq!(log.snr, 12);
    assert_eq!(log.companion_serialize(), vec![0x88, 12, 166, 1, 2]);
}

#[test]
fn channel_info_pads_name() {
    let info = ChannelInfo {
        idx: 1,
        name: NullPaddedSlice::<32>::from(b"#test".to_vec()),
        secret: [7u8; 16],
    };
    let out = info.companion_serialize();
    assert_eq!(out.len(), 1 + 1 + 32 + 16);
    assert_eq!(&out[..7], &[0x12, 1, b'#', b't', b'e', b's', b't']);
    assert!(out[7..34].iter().all(|b| *b == 0));
    assert_eq!(info.ser_size(), out.len());
}

#[test]
fn self_info_size_matches_encoding() {
    let info = SelfInfo {
        advertisement_type: 1,
        tx_power: 22,
        max_tx_power: 22,
        public_key: [3u8; 32],
        lat: 0,
        long: 0,
        multi_acks: 0,
        adv_loc_policy: 0,
        telemetry_mode: 0,
        manual_add_contacts: true,
        radio_freq: 910525,
        radio_bandwidth: 62500,
        radio_sf: 7,
        radio_cr: 5,
        device_name: b"chiyo".to_vec(),
    };
    let out = info.companion_serialize();
    assert_eq!(out.len(), info.ser_size());
    assert_eq!(out[0], ResponseCodes::SelfInfo.code());
    assert_eq!(out[47], 1);
    assert_eq!(&out[out.len() - 5..], b"chiyo");
}

#[test]
fn message_responses_encode() {
    let m = ContactMsgRecv {
        snr: -4,
        reserved: [0, 0],
        pk_prefix: [1, 2, 3, 4, 5, 6],
        path_len: 2,
        text_ty: TextType::PlainText,
        timestamp: 1,
        signature: None,
        data: b"a".to_vec(),
    };
    assert_eq!(
        m.companion_serialize(),
        vec![0x10, 252, 0, 0, 1, 2, 3, 4, 5, 6, 2, 0, 1, 0, 0, 0, b'a']
    );
    assert_eq!(GetMessageRes::NoMoreMessages.companion_serialize(), vec![0x0A]);
    assert_eq!(GetMessageRes::Contact(m.clone()).ser_size(), 17);
}

#[test]
fn custom_vars_join_entries() {
    let mut vars = CustomVars::new();
    vars.push(b"a".to_vec(), b"1".to_vec());
    vars.push(b"b".to_vec(), b"".to_vec());
    assert_eq!(vars.companion_serialize(), b"\x15a:1,b:".to_vec());
    assert_eq!(vars.ser_size(), 7);
    assert_eq!(CustomVars::new().companion_serialize(), vec![0x15]);
}

#[test]
fn frame_response_prefixes_size() {
    let frame = frame_response(&Ack { code: [1, 2, 3, 4] });
    assert_eq!(frame, vec![0x3e, 5, 0, 0x82, 1, 2, 3, 4]);
}

#[test]
fn next_frame_finds_whole_frames() {
    assert_eq!(next_frame(&[1, 2, 3]), FrameScan::NoFrame);
    assert_eq!(next_frame(&[9, 0x3c, 1]), FrameScan::Truncated { start: 1 });
    assert_eq!(next_frame(&[0x3c, 3, 0, 1, 2]), FrameScan::Truncated { start: 0 });
    assert_eq!(
        next_frame(&[7, 0x3c, 2, 0, 0xAA, 0xBB, 0x3c]),
        FrameScan::Frame { start: 1, data_start: 4, data_end: 6 }
    );
    assert_eq!(
        next_frame(&[0x3c, 0, 0]),
        FrameScan::Frame { start: 0, data_start: 3, data_end: 3 }
    );
}

#[test]
fn boxed_arrays_are_filled() {
    let b: Box<[u8; 4]> = box_array(7u8);
    assert_eq!(*b, [7u8; 4]);
    let e: Box<[u16; 0]> = box_array(1u16);
    assert_eq!(e.len(), 0);
}

#[test]
fn utf8_check() {
    assert!(is_utf8("héllo".as_bytes()));
    assert!(!is_utf8(&[0xC3]));
    assert!(is_utf8(&[]));
}
