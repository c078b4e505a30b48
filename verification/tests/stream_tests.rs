use ff_transcode_helper::streams::{plan_streams, MediaType, PacketRoute};

#[test]
fn video_is_transcoded_audio_and_subtitles_copied_rest_dropped() {
    let media = vec![
        MediaType::Video,
        MediaType::Data,
        MediaType::Audio,
        MediaType::Subtitle,
        MediaType::Attachment,
        MediaType::Unknown,
        MediaType::Video,
    ];
    let plan = plan_streams(&media);
    assert_eq!(plan.len(), 7);
    assert_eq!(plan.route_packet(0), PacketRoute::Transcode { output: 0 });
    assert_eq!(plan.route_packet(1), PacketRoute::Drop);
    assert_eq!(plan.route_packet(2), PacketRoute::Copy { output: 1 });
    assert_eq!(plan.route_packet(3), PacketRoute::Copy { output: 2 });
    assert_eq!(plan.route_packet(4), PacketRoute::Drop);
    assert_eq!(plan.route_packet(5), PacketRoute::Drop);
    assert_eq!(plan.route_packet(6), PacketRoute::Transcode { output: 3 });
}

#[test]
fn transcoders_are_the_video_streams_in_order_with_their_outputs() {
    let media = vec![
        MediaType::Audio,
        MediaType::Video,
        MediaType::Data,
        MediaType::Video,
    ];
    let plan = plan_streams(&media);
    assert_eq!(plan.transcoders(), vec![(1, 1), (3, 2)]);
}

#[test]
fn empty_input_gives_empty_plan() {
    let plan = plan_streams(&Vec::new());
    assert_eq!(plan.len(), 0);
    assert!(plan.transcoders().is_empty());
}

#[test]
fn outputs_are_numbered_consecutively_from_zero() {
    let media = vec![
        MediaType::Subtitle,
        MediaType::Attachment,
        MediaType::Audio,
        MediaType::Data,
        MediaType::Video,
    ];
    let plan = plan_streams(&media);
    let outputs: Vec<usize> = (0..plan.len())
        .filter_map(|i| match plan.route_packet(i) {
            PacketRoute::Drop => None,
            PacketRoute::Transcode { output } => Some(output),
            PacketRoute::Copy { output } => Some(output),
        })
        .collect();
    assert_eq!(outputs, vec![0, 1, 2]);
}
