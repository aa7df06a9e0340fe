use vstd::prelude::*;

verus! {

/// Every failure the broker can report, each with a stable wire code and text tag.
#[derive(Debug, Clone, PartialEq, Eq)]
pub enum Error {
    EmptyResponse,
    InvalidConfiguration,
    NotConnected,
    RequestError,
    HttpResponseError(u16, String),
    RequestMiddlewareError,
    CannotCreateEndpoint,
    CannotParseUrl,
    InvalidResponse(u8),
    CannotParseAddress,
    ReadError,
    ConnectionError,
    ReadToEndError,
    Error,
    IoError,
    WriteError,
    CannotParseInt,
    CannotParseSlice,
    CannotParseUtf8,
    InvalidCommand,
    InvalidFormat,
    CannotCreateBaseDirectory,
    CannotCreateStreamsDirectory,
    CannotCreateStreamDirectory(u32),
    CannotCreateStreamInfo(u32),
    CannotUpdateStreamInfo(u32),
    CannotOpenStreamInfo(u32),
    CannotReadStreamInfo(u32),
    CannotReadStreams,
    CannotCreateStream(u32),
    CannotDeleteStream(u32),
    CannotDeleteStreamDirectory(u32),
    StreamNotFound(u32),
    StreamAlreadyExists(u32),
    InvalidStreamId,
    InvalidStreamName,
    CannotReadTopics(u32),
    CannotCreateTopicsDirectory(u32),
    CannotCreateTopicDirectory(u32, u32),
    CannotCreateTopicInfo(u32, u32),
    CannotUpdateTopicInfo(u32, u32),
    CannotOpenTopicInfo(u32, u32),
    CannotReadTopicInfo(u32, u32),
    CannotCreateTopic(u32, u32),
    CannotDeleteTopic(u32, u32),
    CannotDeleteTopicDirectory(u32, u32),
    CannotPollTopic,
    TopicNotFound(u32, u32),
    TopicAlreadyExists(u32, u32),
    InvalidTopicId,
    InvalidTopicName,
    InvalidTopicPartitions,
    LogFileNotFound,
    CannotAppendMessage,
    CannotCreatePartition(u32, u32, u32),
    CannotCreatePartitionDirectory(u32, u32, u32),
    CannotCreatePartitionsDirectory(u32, u32),
    CannotCreateConsumerGroupsDirectory(u32, u32),
    CannotDeletePartition(u32, u32, u32),
    CannotDeletePartitionDirectory(u32, u32, u32),
    CannotCreatePartitionSegmentLogFile(String),
    CannotCreatePartitionSegmentIndexFile(String),
    CannotCreatePartitionSegmentTimeIndexFile(String),
    CannotOpenPartitionLogFile,
    CannotReadPartitions(u32, u32),
    PartitionNotFound(u32),
    InvalidMessagesCount,
    InvalidMessagePayloadLength,
    SegmentNotFound,
    SegmentClosed(u64, u32),
    InvalidSegmentSize(u64),
    CannotReadMessage,
    CannotReadMessageTimestamp,
    CannotReadMessageId,
    CannotReadMessageChecksum,
    InvalidMessageChecksum(u32, u32, u64),
    CannotReadMessageLength,
    CannotReadMessagePayload,
    CannotSaveMessagesToSegment,
    CannotSaveIndexToSegment,
    CannotSaveTimeIndexToSegment,
    EmptyMessagePayload,
    TooBigMessagePayload,
    TooManyMessages,
    InvalidOffset(u64),
    CannotReadConsumerOffsets(u32),
    CannotReadConsumerGroups(u32, u32),
    CannotCreateConsumerGroupInfo(u32, u32, u32),
    CannotDeleteConsumerGroupInfo(u32, u32, u32),
    ConsumerGroupNotFound(u32, u32),
    ConsumerGroupAlreadyExists(u32, u32),
    ConsumerGroupMemberNotFound(u32, u32, u32),
    InvalidConsumerGroupId,
    FeatureUnavailable,
    ClientNotFound(u32),
    InvalidClientId,
}

impl Error {
    /// The status byte sent on the wire for this error; 255 for the generic error and for
    /// client-side failures.
    pub open spec fn code(&self) -> u8 {
        match self {
            Error::EmptyResponse => 255,
            Error::InvalidConfiguration => 255,
            Error::NotConnected => 255,
            Error::RequestError => 255,
            Error::HttpResponseError(_, _) => 255,
            Error::RequestMiddlewareError => 255,
            Error::CannotCreateEndpoint => 255,
            Error::CannotParseUrl => 255,
            Error::InvalidResponse(_) => 255,
            Error::CannotParseAddress => 255,
            Error::ReadError => 255,
            Error::ConnectionError => 255,
            Error::ReadToEndError => 255,
            Error::Error => 255,
            Error::IoError => 1,
            Error::WriteError => 60,
            Error::CannotParseInt => 56,
            Error::CannotParseSlice => 57,
            Error::CannotParseUtf8 => 55,
            Error::InvalidCommand => 2,
            Error::InvalidFormat => 3,
            Error::CannotCreateBaseDirectory => 4,
            Error::CannotCreateStreamsDirectory => 5,
            Error::CannotCreateStreamDirectory(_) => 6,
            Error::CannotCreateStreamInfo(_) => 7,
            Error::CannotUpdateStreamInfo(_) => 8,
            Error::CannotOpenStreamInfo(_) => 9,
            Error::CannotReadStreamInfo(_) => 10,
            Error::CannotReadStreams => 68,
            Error::CannotCreateStream(_) => 11,
            Error::CannotDeleteStream(_) => 12,
            Error::CannotDeleteStreamDirectory(_) => 13,
            Error::StreamNotFound(_) => 14,
            Error::StreamAlreadyExists(_) => 15,
            Error::InvalidStreamId => 42,
            Error::InvalidStreamName => 16,
            Error::CannotReadTopics(_) => 69,
            Error::CannotCreateTopicsDirectory(_) => 17,
            Error::CannotCreateTopicDirectory(_, _) => 18,
            Error::CannotCreateTopicInfo(_, _) => 19,
            Error::CannotUpdateTopicInfo(_, _) => 20,
            Error::CannotOpenTopicInfo(_, _) => 21,
            Error::CannotReadTopicInfo(_, _) => 22,
            Error::CannotCreateTopic(_, _) => 23,
            Error::CannotDeleteTopic(_, _) => 24,
            Error::CannotDeleteTopicDirectory(_, _) => 25,
            Error::CannotPollTopic => 26,
            Error::TopicNotFound(_, _) => 27,
            Error::TopicAlreadyExists(_, _) => 28,
            Error::InvalidTopicId => 43,
            Error::InvalidTopicName => 29,
            Error::InvalidTopicPartitions => 30,
            Error::LogFileNotFound => 31,
            Error::CannotAppendMessage => 32,
            Error::CannotCreatePartition(_, _, _) => 33,
            Error::CannotCreatePartitionDirectory(_, _, _) => 34,
            Error::CannotCreatePartitionsDirectory(_, _) => 77,
            Error::CannotCreateConsumerGroupsDirectory(_, _) => 78,
            Error::CannotDeletePartition(_, _, _) => 63,
            Error::CannotDeletePartitionDirectory(_, _, _) => 64,
            Error::CannotCreatePartitionSegmentLogFile(_) => 35,
            Error::CannotCreatePartitionSegmentIndexFile(_) => 36,
            Error::CannotCreatePartitionSegmentTimeIndexFile(_) => 37,
            Error::CannotOpenPartitionLogFile => 38,
            Error::CannotReadPartitions(_, _) => 39,
            Error::PartitionNotFound(_) => 40,
            Error::InvalidMessagesCount => 41,
            Error::InvalidMessagePayloadLength => 65,
            Error::SegmentNotFound => 44,
            Error::SegmentClosed(_, _) => 45,
            Error::InvalidSegmentSize(_) => 46,
            Error::CannotReadMessage => 47,
            Error::CannotReadMessageTimestamp => 48,
            Error::CannotReadMessageId => 49,
            Error::CannotReadMessageChecksum => 70,
            Error::InvalidMessageChecksum(_, _, _) => 71,
            Error::CannotReadMessageLength => 50,
            Error::CannotReadMessagePayload => 51,
            Error::CannotSaveMessagesToSegment => 52,
            Error::CannotSaveIndexToSegment => 53,
            Error::CannotSaveTimeIndexToSegment => 54,
            Error::EmptyMessagePayload => 67,
            Error::TooBigMessagePayload => 58,
            Error::TooManyMessages => 59,
            Error::InvalidOffset(_) => 61,
            Error::CannotReadConsumerOffsets(_) => 62,
            Error::CannotReadConsumerGroups(_, _) => 79,
            Error::CannotCreateConsumerGroupInfo(_, _, _) => 80,
            Error::CannotDeleteConsumerGroupInfo(_, _, _) => 81,
            Error::ConsumerGroupNotFound(_, _) => 72,
            Error::ConsumerGroupAlreadyExists(_, _) => 73,
            Error::ConsumerGroupMemberNotFound(_, _, _) => 74,
            Error::InvalidConsumerGroupId => 75,
            Error::FeatureUnavailable => 76,
            Error::ClientNotFound(_) => 82,
            Error::InvalidClientId => 83,
        }
    }

    /// The short text tag of this error; "error" for client-side failures.
    pub open spec fn text_code(&self) -> Seq<char> {
        match self {
            Error::EmptyResponse => "error"@,
            Error::InvalidConfiguration => "error"@,
            Error::NotConnected => "error"@,
            Error::RequestError => "error"@,
            Error::HttpResponseError(_, _) => "error"@,
            Error::RequestMiddlewareError => "error"@,
            Error::CannotCreateEndpoint => "error"@,
            Error::CannotParseUrl => "error"@,
            Error::InvalidResponse(_) => "error"@,
            Error::CannotParseAddress => "error"@,
            Error::ReadError => "error"@,
            Error::ConnectionError => "error"@,
            Error::ReadToEndError => "error"@,
            Error::Error => "error"@,
            Error::IoError => "io_error"@,
            Error::WriteError => "write_error"@,
            Error::CannotParseInt => "cannot_parse_int"@,
            Error::CannotParseSlice => "cannot_parse_slice"@,
            Error::CannotParseUtf8 => "cannot_parse_utf8"@,
            Error::InvalidCommand => "invalid_command"@,
            Error::InvalidFormat => "invalid_format"@,
            Error::CannotCreateBaseDirectory => "cannot_create_base_directory"@,
            Error::CannotCreateStreamsDirectory => "cannot_create_streams_directory"@,
            Error::CannotCreateStreamDirectory(_) => "cannot_create_stream_directory"@,
            Error::CannotCreateStreamInfo(_) => "cannot_create_stream_info"@,
            Error::CannotUpdateStreamInfo(_) => "cannot_update_stream_info"@,
            Error::CannotOpenStreamInfo(_) => "cannot_open_stream_info"@,
            Error::CannotReadStreamInfo(_) => "cannot_read_stream_info"@,
            Error::CannotReadStreams => "cannot_read_streams"@,
            Error::CannotCreateStream(_) => "cannot_create_stream"@,
            Error::CannotDeleteStream(_) => "cannot_delete_stream"@,
            Error::CannotDeleteStreamDirectory(_) => "cannot_delete_stream_directory"@,
            Error::StreamNotFound(_) => "stream_not_found"@,
            Error::StreamAlreadyExists(_) => "stream_already_exists"@,
            Error::InvalidStreamId => "invalid_stream_id"@,
            Error::InvalidStreamName => "invalid_stream_name"@,
            Error::CannotReadTopics(_) => "cannot_read_topics"@,
            Error::CannotCreateTopicsDirectory(_) => "cannot_create_topics_directory"@,
            Error::CannotCreateTopicDirectory(_, _) => "cannot_create_topic_directory"@,
            Error::CannotCreateTopicInfo(_, _) => "cannot_create_topic_info"@,
            Error::CannotUpdateTopicInfo(_, _) => "cannot_update_topic_info"@,
            Error::CannotOpenTopicInfo(_, _) => "cannot_open_topic_info"@,
            Error::CannotReadTopicInfo(_, _) => "cannot_read_topic_info"@,
            Error::CannotCreateTopic(_, _) => "cannot_create_topic"@,
            Error::CannotDeleteTopic(_, _) => "cannot_delete_topic"@,
            Error::CannotDeleteTopicDirectory(_, _) => "cannot_delete_topic_directory"@,
            Error::CannotPollTopic => "cannot_poll_topic"@,
            Error::TopicNotFound(_, _) => "topic_not_found"@,
            Error::TopicAlreadyExists(_, _) => "topic_already_exists"@,
            Error::InvalidTopicId => "invalid_topic_id"@,
            Error::InvalidTopicName => "invalid_topic_name"@,
            Error::InvalidTopicPartitions => "invalid_topic_partitions"@,
            Error::LogFileNotFound => "log_file_not_found"@,
            Error::CannotAppendMessage => "cannot_append_message"@,
            Error::CannotCreatePartition(_, _, _) => "cannot_create_partition"@,
            Error::CannotCreatePartitionDirectory(_, _, _) => "cannot_create_partition_directory"@,
            Error::CannotCreatePartitionsDirectory(_, _) => "cannot_create_partitions_directory"@,
            Error::CannotCreateConsumerGroupsDirectory(_, _) => "cannot_create_consumer_groups_directory"@,
            Error::CannotDeletePartition(_, _, _) => "cannot_delete_partition"@,
            Error::CannotDeletePartitionDirectory(_, _, _) => "cannot_delete_partition_directory"@,
            Error::CannotCreatePartitionSegmentLogFile(_) => "cannot_create_partition_segment_log_file"@,
            Error::CannotCreatePartitionSegmentIndexFile(_) => "cannot_create_partition_segment_index_file"@,
            Error::CannotCreatePartitionSegmentTimeIndexFile(_) => "cannot_create_partition_segment_time_index_file"@,
            Error::CannotOpenPartitionLogFile => "cannot_open_partition_log_file"@,
            Error::CannotReadPartitions(_, _) => "cannot_read_partitions"@,
            Error::PartitionNotFound(_) => "partition_not_found"@,
            Error::InvalidMessagesCount => "invalid_messages_count"@,
            Error::InvalidMessagePayloadLength => "invalid_message_payload_length"@,
            Error::SegmentNotFound => "segment_not_found"@,
            Error::SegmentClosed(_, _) => "segment_closed"@,
            Error::InvalidSegmentSize(_) => "invalid_segment_size"@,
            Error::CannotReadMessage => "cannot_read_message"@,
            Error::CannotReadMessageTimestamp => "cannot_read_message_timestamp"@,
            Error::CannotReadMessageId => "cannot_read_message_id"@,
            Error::CannotReadMessageChecksum => "cannot_read_message_checksum"@,
            Error::InvalidMessageChecksum(_, _, _) => "invalid_message_checksum"@,
            Error::CannotReadMessageLength => "cannot_read_message_length"@,
            Error::CannotReadMessagePayload => "cannot_read_message_payload"@,
            Error::CannotSaveMessagesToSegment => "cannot_save_messages_to_segment"@,
            Error::CannotSaveIndexToSegment => "cannot_save_index_to_segment"@,
            Error::CannotSaveTimeIndexToSegment => "cannot_save_time_index_to_segment"@,
            Error::EmptyMessagePayload => "empty_message_payload"@,
            Error::TooBigMessagePayload => "too_big_message_payload"@,
            Error::TooManyMessages => "too_many_messages"@,
            Error::InvalidOffset(_) => "invalid_offset"@,
            Error::CannotReadConsumerOffsets(_) => "cannot_read_consumer_offsets"@,
            Error::CannotReadConsumerGroups(_, _) => "cannot_read_consumer_groups"@,
            Error::CannotCreateConsumerGroupInfo(_, _, _) => "cannot_create_consumer_group_info"@,
            Error::CannotDeleteConsumerGroupInfo(_, _, _) => "cannot_delete_consumer_group_info"@,
            Error::ConsumerGroupNotFound(_, _) => "consumer_group_not_found"@,
            Error::ConsumerGroupAlreadyExists(_, _) => "consumer_group_already_exists"@,
            Error::ConsumerGroupMemberNotFound(_, _, _) => "consumer_group_member_not_found"@,
            Error::InvalidConsumerGroupId => "invalid_consumer_group_id"@,
            Error::FeatureUnavailable => "feature_unavailable"@,
            Error::ClientNotFound(_) => "client_not_found"@,
            Error::InvalidClientId => "invalid_client_id"@,
        }
    }

    /// Never 0, which is the status of a successful response.
    pub fn as_code(&self) -> (r: u8)
        ensures
            r == self.code(),
            r != 0,
    {
        match self {
            Error::EmptyResponse => 255,
            Error::InvalidConfiguration => 255,
            Error::NotConnected => 255,
            Error::RequestError => 255,
            Error::HttpResponseError(_, _) => 255,
            Error::RequestMiddlewareError => 255,
            Error::CannotCreateEndpoint => 255,
            Error::CannotParseUrl => 255,
            Error::InvalidResponse(_) => 255,
            Error::CannotParseAddress => 255,
            Error::ReadError => 255,
            Error::ConnectionError => 255,
            Error::ReadToEndError => 255,
            Error::Error => 255,
            Error::IoError => 1,
            Error::WriteError => 60,
            Error::CannotParseInt => 56,
            Error::CannotParseSlice => 57,
            Error::CannotParseUtf8 => 55,
            Error::InvalidCommand => 2,
            Error::InvalidFormat => 3,
            Error::CannotCreateBaseDirectory => 4,
            Error::CannotCreateStreamsDirectory => 5,
            Error::CannotCreateStreamDirectory(_) => 6,
            Error::CannotCreateStreamInfo(_) => 7,
            Error::CannotUpdateStreamInfo(_) => 8,
            Error::CannotOpenStreamInfo(_) => 9,
            Error::CannotReadStreamInfo(_) => 10,
            Error::CannotReadStreams => 68,
            Error::CannotCreateStream(_) => 11,
            Error::CannotDeleteStream(_) => 12,
            Error::CannotDeleteStreamDirectory(_) => 13,
            Error::StreamNotFound(_) => 14,
            Error::StreamAlreadyExists(_) => 15,
            Error::InvalidStreamId => 42,
            Error::InvalidStreamName => 16,
            Error::CannotReadTopics(_) => 69,
            Error::CannotCreateTopicsDirectory(_) => 17,
            Error::CannotCreateTopicDirectory(_, _) => 18,
            Error::CannotCreateTopicInfo(_, _) => 19,
            Error::CannotUpdateTopicInfo(_, _) => 20,
            Error::CannotOpenTopicInfo(_, _) => 21,
            Error::CannotReadTopicInfo(_, _) => 22,
            Error::CannotCreateTopic(_, _) => 23,
            Error::CannotDeleteTopic(_, _) => 24,
            Error::CannotDeleteTopicDirectory(_, _) => 25,
            Error::CannotPollTopic => 26,
            Error::TopicNotFound(_, _) => 27,
            Error::TopicAlreadyExists(_, _) => 28,
            Error::InvalidTopicId => 43,
            Error::InvalidTopicName => 29,
            Error::InvalidTopicPartitions => 30,
            Error::LogFileNotFound => 31,
            Error::CannotAppendMessage => 32,
            Error::CannotCreatePartition(_, _, _) => 33,
            Error::CannotCreatePartitionDirectory(_, _, _) => 34,
            Error::CannotCreatePartitionsDirectory(_, _) => 77,
            Error::CannotCreateConsumerGroupsDirectory(_, _) => 78,
            Error::CannotDeletePartition(_, _, _) => 63,
            Error::CannotDeletePartitionDirectory(_, _, _) => 64,
            Error::CannotCreatePartitionSegmentLogFile(_) => 35,
            Error::CannotCreatePartitionSegmentIndexFile(_) => 36,
            Error::CannotCreatePartitionSegmentTimeIndexFile(_) => 37,
            Error::CannotOpenPartitionLogFile => 38,
            Error::CannotReadPartitions(_, _) => 39,
            Error::PartitionNotFound(_) => 40,
            Error::InvalidMessagesCount => 41,
            Error::InvalidMessagePayloadLength => 65,
            Error::SegmentNotFound => 44,
            Error::SegmentClosed(_, _) => 45,
            Error::InvalidSegmentSize(_) => 46,
            Error::CannotReadMessage => 47,
            Error::CannotReadMessageTimestamp => 48,
            Error::CannotReadMessageId => 49,
            Error::CannotReadMessageChecksum => 70,
            Error::InvalidMessageChecksum(_, _, _) => 71,
            Error::CannotReadMessageLength => 50,
            Error::CannotReadMessagePayload => 51,
            Error::CannotSaveMessagesToSegment => 52,
            Error::CannotSaveIndexToSegment => 53,
            Error::CannotSaveTimeIndexToSegment => 54,
            Error::EmptyMessagePayload => 67,
            Error::TooBigMessagePayload => 58,
            Error::TooManyMessages => 59,
            Error::InvalidOffset(_) => 61,
            Error::CannotReadConsumerOffsets(_) => 62,
            Error::CannotReadConsumerGroups(_, _) => 79,
            Error::CannotCreateConsumerGroupInfo(_, _, _) => 80,
            Error::CannotDeleteConsumerGroupInfo(_, _, _) => 81,
            Error::ConsumerGroupNotFound(_, _) => 72,
            Error::ConsumerGroupAlreadyExists(_, _) => 73,
            Error::ConsumerGroupMemberNotFound(_, _, _) => 74,
            Error::InvalidConsumerGroupId => 75,
            Error::FeatureUnavailable => 76,
            Error::ClientNotFound(_) => 82,
            Error::InvalidClientId => 83,
        }
    }

    pub fn as_text_code(&self) -> (r: &'static str)
        ensures
            r@ == self.text_code(),
    {
        match self {
            Error::EmptyResponse => "error",
            Error::InvalidConfiguration => "error",
            Error::NotConnected => "error",
            Error::RequestError => "error",
            Error::HttpResponseError(_, _) => "error",
            Error::RequestMiddlewareError => "error",
            Error::CannotCreateEndpoint => "error",
            Error::CannotParseUrl => "error",
            Error::InvalidResponse(_) => "error",
            Error::CannotParseAddress => "error",
            Error::ReadError => "error",
            Error::ConnectionError => "error",
            Error::ReadToEndError => "error",
            Error::Error => "error",
            Error::IoError => "io_error",
            Error::WriteError => "write_error",
            Error::CannotParseInt => "cannot_parse_int",
            Error::CannotParseSlice => "cannot_parse_slice",
            Error::CannotParseUtf8 => "cannot_parse_utf8",
            Error::InvalidCommand => "invalid_command",
            Error::InvalidFormat => "invalid_format",
            Error::CannotCreateBaseDirectory => "cannot_create_base_directory",
            Error::CannotCreateStreamsDirectory => "cannot_create_streams_directory",
            Error::CannotCreateStreamDirectory(_) => "cannot_create_stream_directory",
            Error::CannotCreateStreamInfo(_) => "cannot_create_stream_info",
            Error::CannotUpdateStreamInfo(_) => "cannot_update_stream_info",
            Error::CannotOpenStreamInfo(_) => "cannot_open_stream_info",
            Error::CannotReadStreamInfo(_) => "cannot_read_stream_info",
            Error::CannotReadStreams => "cannot_read_streams",
            Error::CannotCreateStream(_) => "cannot_create_stream",
            Error::CannotDeleteStream(_) => "cannot_delete_stream",
            Error::CannotDeleteStreamDirectory(_) => "cannot_delete_stream_directory",
            Error::StreamNotFound(_) => "stream_not_found",
            Error::StreamAlreadyExists(_) => "stream_already_exists",
            Error::InvalidStreamId => "invalid_stream_id",
            Error::InvalidStreamName => "invalid_stream_name",
            Error::CannotReadTopics(_) => "cannot_read_topics",
            Error::CannotCreateTopicsDirectory(_) => "cannot_create_topics_directory",
            Error::CannotCreateTopicDirectory(_, _) => "cannot_create_topic_directory",
            Error::CannotCreateTopicInfo(_, _) => "cannot_create_topic_info",
            Error::CannotUpdateTopicInfo(_, _) => "cannot_update_topic_info",
            Error::CannotOpenTopicInfo(_, _) => "cannot_open_topic_info",
            Error::CannotReadTopicInfo(_, _) => "cannot_read_topic_info",
            Error::CannotCreateTopic(_, _) => "cannot_create_topic",
            Error::CannotDeleteTopic(_, _) => "cannot_delete_topic",
            Error::CannotDeleteTopicDirectory(_, _) => "cannot_delete_topic_directory",
            Error::CannotPollTopic => "cannot_poll_topic",
            Error::TopicNotFound(_, _) => "topic_not_found",
            Error::TopicAlreadyExists(_, _) => "topic_already_exists",
            Error::InvalidTopicId => "invalid_topic_id",
            Error::InvalidTopicName => "invalid_topic_name",
            Error::InvalidTopicPartitions => "invalid_topic_partitions",
            Error::LogFileNotFound => "log_file_not_found",
            Error::CannotAppendMessage => "cannot_append_message",
            Error::CannotCreatePartition(_, _, _) => "cannot_create_partition",
            Error::CannotCreatePartitionDirectory(_, _, _) => "cannot_create_partition_directory",
            Error::CannotCreatePartitionsDirectory(_, _) => "cannot_create_partitions_directory",
            Error::CannotCreateConsumerGroupsDirectory(_, _) => "cannot_create_consumer_groups_directory",
            Error::CannotDeletePartition(_, _, _) => "cannot_delete_partition",
            Error::CannotDeletePartitionDirectory(_, _, _) => "cannot_delete_partition_directory",
            Error::CannotCreatePartitionSegmentLogFile(_) => "cannot_create_partition_segment_log_file",
            Error::CannotCreatePartitionSegmentIndexFile(_) => "cannot_create_partition_segment_index_file",
            Error::CannotCreatePartitionSegmentTimeIndexFile(_) => "cannot_create_partition_segment_time_index_file",
            Error::CannotOpenPartitionLogFile => "cannot_open_partition_log_file",
            Error::CannotReadPartitions(_, _) => "cannot_read_partitions",
            Error::PartitionNotFound(_) => "partition_not_found",
            Error::InvalidMessagesCount => "invalid_messages_count",
            Error::InvalidMessagePayloadLength => "invalid_message_payload_length",
            Error::SegmentNotFound => "segment_not_found",
            Error::SegmentClosed(_, _) => "segment_closed",
            Error::InvalidSegmentSize(_) => "invalid_segment_size",
            Error::CannotReadMessage => "cannot_read_message",
            Error::CannotReadMessageTimestamp => "cannot_read_message_timestamp",
            Error::CannotReadMessageId => "cannot_read_message_id",
            Error::CannotReadMessageChecksum => "cannot_read_message_checksum",
            Error::InvalidMessageChecksum(_, _, _) => "invalid_message_checksum",
            Error::CannotReadMessageLength => "cannot_read_message_length",
            Error::CannotReadMessagePayload => "cannot_read_message_payload",
            Error::CannotSaveMessagesToSegment => "cannot_save_messages_to_segment",
            Error::CannotSaveIndexToSegment => "cannot_save_index_to_segment",
            Error::CannotSaveTimeIndexToSegment => "cannot_save_time_index_to_segment",
            Error::EmptyMessagePayload => "empty_message_payload",
            Error::TooBigMessagePayload => "too_big_message_payload",
            Error::TooManyMessages => "too_many_messages",
            Error::InvalidOffset(_) => "invalid_offset",
            Error::CannotReadConsumerOffsets(_) => "cannot_read_consumer_offsets",
            Error::CannotReadConsumerGroups(_, _) => "cannot_read_consumer_groups",
            Error::CannotCreateConsumerGroupInfo(_, _, _) => "cannot_create_consumer_group_info",
            Error::CannotDeleteConsumerGroupInfo(_, _, _) => "cannot_delete_consumer_group_info",
            Error::ConsumerGroupNotFound(_, _) => "consumer_group_not_found",
            Error::ConsumerGroupAlreadyExists(_, _) => "consumer_group_already_exists",
            Error::ConsumerGroupMemberNotFound(_, _, _) => "consumer_group_member_not_found",
            Error::InvalidConsumerGroupId => "invalid_consumer_group_id",
            Error::FeatureUnavailable => "feature_unavailable",
            Error::ClientNotFound(_) => "client_not_found",
            Error::InvalidClientId => "invalid_client_id",
        }
    }
}

/// Failures of the command-line client: its own, or one reported by the broker.
#[derive(Debug, Clone, PartialEq, Eq)]
pub enum ClientError {
    InvalidCommand,
    InvalidTransport(String),
    IoError,
    SdkError(Error),
}

} // verus!
