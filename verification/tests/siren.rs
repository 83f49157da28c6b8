use ank_kernel::server::CitadelAuth;
use ank_kernel::server::RpcCode;
use ank_kernel::siren::{
    audio_buffer_full,
    is_accepted_format, placeholder_speech, speech_event, stt_done_event, stt_error_event,
    stt_start_event, transcript_command, transcript_message_text, vad_end_event,
    vad_start_event, voice_command_task, FrameAssembler, SentenceAccumulator, VadEvent,
    VadTracker, VoiceSession, SpeechNumbering, TTS_CHUNK_BYTES, TTS_SAMPLE_RATE,
};

#[test]
fn sentences_are_handed_out_at_their_end() {
    let mut acc = SentenceAccumulator::new();
    assert_eq!(acc.push_token("  Hola"), None);
    assert_eq!(acc.push_token(" mundo"), None);
    assert_eq!(acc.push_token(". "), Some("Hola mundo.".to_string()));
    assert_eq!(acc.push_token("¿Qué tal"), None);
    assert_eq!(acc.push_token("?"), Some("¿Qué tal?".to_string()));
    assert_eq!(acc.push_token("   \n"), None);
    assert_eq!(acc.push_token("resto"), None);
    assert_eq!(acc.flush(), Some("resto".to_string()));
    assert_eq!(acc.flush(), None);
}

#[test]
fn only_pcm_16khz_16bit_is_accepted() {
    assert!(is_accepted_format("pcm_16khz_16bit"));
    assert!(!is_accepted_format("opus"));
    assert!(!is_accepted_format("PCM_16KHZ_16BIT"));
}

#[test]
fn frames_are_whole_and_little_endian() {
    let mut f = FrameAssembler::new();
    assert!(f.push(&[1, 0, 0xff, 0xff]).is_empty());
    let mut rest = vec![0u8; 636];
    rest[0] = 0x00;
    rest[1] = 0x80;
    let frames = f.push(&rest);
    assert_eq!(frames.len(), 1);
    assert_eq!(frames[0].len(), 320);
    assert_eq!(frames[0][0], 1);
    assert_eq!(frames[0][1], -1);
    assert_eq!(frames[0][2], i16::MIN);
    assert!(f.push(&[]).is_empty());
}

#[test]
fn chunking_does_not_change_the_frames() {
    let audio: Vec<u8> = (0..2000u32).map(|i| (i * 7 % 251) as u8).collect();
    let mut whole = FrameAssembler::new();
    let all = whole.push(&audio);

    let mut pieces = FrameAssembler::new();
    let mut got = Vec::new();
    for chunk in audio.chunks(333) {
        got.extend(pieces.push(chunk));
    }
    assert_eq!(all.len(), 3);
    assert_eq!(got, all);
    // 2000 - 3 * 640 bytes wait for more in both.
    let tail_whole = whole.push(&[0u8; 560]);
    let tail_pieces = pieces.push(&[0u8; 560]);
    assert_eq!(tail_whole.len(), 1);
    assert_eq!(tail_whole, tail_pieces);
}

#[test]
fn utterance_ends_after_thirty_silent_frames() {
    let mut vad = VadTracker::new();
    let frame = [7i16; 4];
    assert!(matches!(vad.on_frame(&frame, false), VadEvent::Quiet));
    assert!(matches!(vad.on_frame(&frame, true), VadEvent::SpeechStarted));
    for _ in 0..29 {
        assert!(matches!(vad.on_frame(&frame, false), VadEvent::SpeechContinues));
    }
    match vad.on_frame(&frame, false) {
        VadEvent::SpeechEnded(samples) => assert_eq!(samples.len(), 31 * 4),
        _ => panic!("thirty silent frames end an utterance"),
    }
    assert!(matches!(vad.on_frame(&frame, false), VadEvent::Quiet));
}

#[test]
fn an_utterance_hands_back_its_frames_in_order() {
    let mut vad = VadTracker::new();
    let mut expected: Vec<i16> = Vec::new();
    let first = [100i16, 101];
    expected.extend_from_slice(&first);
    assert!(matches!(vad.on_frame(&first, true), VadEvent::SpeechStarted));
    for k in 0..29i16 {
        let frame = [k, -k];
        expected.extend_from_slice(&frame);
        assert!(matches!(vad.on_frame(&frame, false), VadEvent::SpeechContinues));
    }
    let last = [-7i16, 7];
    expected.extend_from_slice(&last);
    match vad.on_frame(&last, false) {
        VadEvent::SpeechEnded(samples) => assert_eq!(samples, expected),
        _ => panic!("the thirtieth unvoiced frame ends the utterance"),
    }
}

#[test]
fn voice_resets_the_silence_count() {
    let mut vad = VadTracker::new();
    let frame = [1i16; 2];
    vad.on_frame(&frame, true);
    for _ in 0..20 {
        vad.on_frame(&frame, false);
    }
    assert!(matches!(vad.on_frame(&frame, true), VadEvent::SpeechContinues));
    for _ in 0..29 {
        assert!(matches!(vad.on_frame(&frame, false), VadEvent::SpeechContinues));
    }
    match vad.on_frame(&frame, false) {
        VadEvent::SpeechEnded(samples) => assert_eq!(samples.len(), (1 + 20 + 1 + 30) * 2),
        _ => panic!("the utterance ends"),
    }
}

#[test]
fn noise_transcripts_are_not_commands() {
    assert_eq!(transcript_command("  abre el archivo  "), Some("abre el archivo".to_string()));
    assert_eq!(transcript_command("   "), None);
    assert_eq!(transcript_command("[MUSICA]"), None);
    assert_eq!(transcript_command("algo [Silencio] algo"), None);
    assert_eq!(transcript_command("a"), None);
    assert_eq!(transcript_command("ñ"), Some("ñ".to_string()));
}

#[test]
fn voice_commands_become_critical_tasks() {
    let auth = CitadelAuth {
        tenant_id: "t1".to_string(),
        session_key: "k".to_string(),
        public_id: "p".to_string(),
    };
    let p = voice_command_task(&auth, "abre".to_string());
    assert_eq!(p.process_name, "Voice Command");
    assert_eq!(p.priority, 10);
    assert_eq!(p.memory_pointers.l1_instruction, "abre");
    assert_eq!(p.tenant_id.as_deref(), Some("t1"));
    assert_eq!(p.session_key.as_deref(), Some("k"));
    assert!(p.public_id.is_none());
}

#[test]
fn transcript_messages_are_json() {
    assert_eq!(
        transcript_message_text("di \"hola\"", "proc_1"),
        "{\"pid\":\"proc_1\",\"transcript\":\"di \\\"hola\\\"\"}"
    );
    let e = stt_done_event("ok", "p", 4);
    assert_eq!(e.event_type, "STT_DONE");
    assert_eq!(e.message, "{\"pid\":\"p\",\"transcript\":\"ok\"}");
    assert_eq!(e.processed_sequence_number, 4);
}

#[test]
fn channel_events() {
    let e = vad_start_event(1);
    assert_eq!((e.event_type.as_str(), e.message.as_str()), ("VAD_START", "Speaking..."));
    let e = vad_end_event(2);
    assert_eq!((e.event_type.as_str(), e.message.as_str()), ("VAD_END", "Processing voice..."));
    let e = stt_start_event(3);
    assert_eq!((e.event_type.as_str(), e.message.as_str()), ("STT_START", "Transcribing..."));
    let e = stt_error_event("no model", 5);
    assert_eq!(e.message, "STT Error: no model");
    assert!(e.tts_audio_chunk.is_empty());
    assert_eq!(e.sample_rate, 0);
}

#[test]
fn speech_takes_the_next_sequence_number() {
    let e = speech_event("Hola.".to_string(), 9);
    assert_eq!(e.event_type, "TTS_AUDIO");
    assert_eq!(e.message, "Hola.");
    assert_eq!(e.processed_sequence_number, 10);
    assert_eq!(e.sample_rate, TTS_SAMPLE_RATE);
    assert_eq!(e.tts_audio_chunk.len(), TTS_CHUNK_BYTES);
    let a = placeholder_speech();
    assert_eq!(a[0], 0);
    assert_eq!(a[255], 255);
    assert_eq!(a[256], 0);
    assert_eq!(a[11024], (11024 % 256) as u8);
}

#[test]
fn transcripts_are_quoted_as_serde_json_quotes_them() {
    let texts = ["plain", "di \"hola\"", "back\\slash", "tab\tnl\ncr\r", "\u{8}\u{c}\u{1}\u{1f}\u{7f}", "ñandú ☃"];
    for t in texts.iter() {
        let expected = format!(
            "{{\"pid\":{},\"transcript\":{}}}",
            serde_json::to_string("p").unwrap(),
            serde_json::to_string(t).unwrap()
        );
        assert_eq!(transcript_message_text(t, "p"), expected);
    }
}

#[test]
fn speech_audio_is_the_ramp() {
    let e = speech_event("x".to_string(), 0);
    assert_eq!(e.tts_audio_chunk, placeholder_speech());
    assert!(e.tts_audio_chunk.iter().enumerate().all(|(i, &b)| b == (i % 256) as u8));
}

#[test]
fn a_voice_session_judges_each_whole_frame_once() {
    let mut session = VoiceSession::new();
    assert!(session.on_chunk("opus", &[0u8; 2000]).is_empty());
    // Silence: 1000 bytes make one frame and leave 360 waiting.
    let events = session.on_chunk("pcm_16khz_16bit", &[0u8; 1000]);
    assert_eq!(events.len(), 1);
    assert!(matches!(events[0], VadEvent::Quiet));
    // 280 more complete the second frame exactly.
    let events = session.on_chunk("pcm_16khz_16bit", &[0u8; 280]);
    assert_eq!(events.len(), 1);
    assert!(matches!(events[0], VadEvent::Quiet));
    assert!(session.on_chunk("pcm_16khz_16bit", &[0u8; 639]).is_empty());
}

#[test]
fn a_full_audio_buffer_is_refused_as_exhausted() {
    let s = audio_buffer_full();
    assert_eq!(s.code, RpcCode::ResourceExhausted);
    assert_eq!(s.message, "Audio buffer full");
}

#[test]
fn speech_events_are_numbered_in_order() {
    let mut n = SpeechNumbering::new(41);
    let a = n.next_event("Uno.".to_string()).unwrap();
    let b = n.next_event("Dos.".to_string()).unwrap();
    assert_eq!((a.message.as_str(), a.processed_sequence_number), ("Uno.", 42));
    assert_eq!((b.message.as_str(), b.processed_sequence_number), ("Dos.", 43));
    assert_eq!(b.event_type, "TTS_AUDIO");
    assert_eq!(b.tts_audio_chunk.len(), TTS_CHUNK_BYTES);
    assert_eq!(b.tts_audio_chunk[300], 44);
    let mut last = SpeechNumbering::new(u64::MAX - 1);
    assert_eq!(last.next_event("x".to_string()).unwrap().processed_sequence_number, u64::MAX);
    assert!(last.next_event("y".to_string()).is_none());
}

#[test]
fn pids_are_version_4_uuids() {
    let p = ank_kernel::scheduler::PCB::new("P".to_string(), 1, "x".to_string());
    let id = &p.pid.as_bytes()[5..];
    assert_eq!(id[14], b'4');
    assert!(b"89ab".contains(&id[19]));
    assert!(p.created_at.nanos < 1_000_000_000);
}
