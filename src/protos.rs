//! Messages of the pprof profile format, with accessors for each field.
use vstd::prelude::*;

verus! {
/// A profile in the pprof interchange format: samples, the tables they refer to, and run metadata.
#[derive(Clone, Default)]
pub struct Profile {
    pub sample_type: Vec<ValueType>,
    pub sample: Vec<Sample>,
    pub mapping: Vec<Mapping>,
    pub location: Vec<Location>,
    pub function: Vec<Function>,
    pub string_table: Vec<String>,
    pub drop_frames: i64,
    pub keep_frames: i64,
    pub time_nanos: i64,
    pub duration_nanos: i64,
    pub period_type: Option<ValueType>,
    pub period: i64,
    pub comment: Vec<i64>,
    pub default_sample_type: i64,
}

impl Profile {
    /// Empties the `sample_type` field.
    pub fn clear_sample_type(&mut self)
        ensures
            final(self).sample_type@.len() == 0,
            *final(self) == (Profile { sample_type: final(self).sample_type, ..*old(self) }),
    {
        self.sample_type.clear();
    }

    /// Replaces the `sample_type` field.
    pub fn set_sample_type(&mut self, v: Vec<ValueType>)
        ensures
            *final(self) == (Profile { sample_type: v, ..*old(self) }),
    {
        self.sample_type = v;
    }

    /// Empties the `sample` field.
    pub fn clear_sample(&mut self)
        ensures
            final(self).sample@.len() == 0,
            *final(self) == (Profile { sample: final(self).sample, ..*old(self) }),
    {
        self.sample.clear();
    }

    /// Replaces the `sample` field.
    pub fn set_sample(&mut self, v: Vec<Sample>)
        ensures
            *final(self) == (Profile { sample: v, ..*old(self) }),
    {
        self.sample = v;
    }

    /// Empties the `mapping` field.
    pub fn clear_mapping(&mut self)
        ensures
            final(self).mapping@.len() == 0,
            *final(self) == (Profile { mapping: final(self).mapping, ..*old(self) }),
    {
        self.mapping.clear();
    }

    /// Replaces the `mapping` field.
    pub fn set_mapping(&mut self, v: Vec<Mapping>)
        ensures
            *final(self) == (Profile { mapping: v, ..*old(self) }),
    {
        self.mapping = v;
    }

    /// Empties the `location` field.
    pub fn clear_location(&mut self)
        ensures
            final(self).location@.len() == 0,
            *final(self) == (Profile { location: final(self).location, ..*old(self) }),
    {
        self.location.clear();
    }

    /// Replaces the `location` field.
    pub fn set_location(&mut self, v: Vec<Location>)
        ensures
            *final(self) == (Profile { location: v, ..*old(self) }),
    {
        self.location = v;
    }

    /// Empties the `function` field.
    pub fn clear_function(&mut self)
        ensures
            final(self).function@.len() == 0,
            *final(self) == (Profile { function: final(self).function, ..*old(self) }),
    {
        self.function.clear();
    }

    /// Replaces the `function` field.
    pub fn set_function(&mut self, v: Vec<Function>)
        ensures
            *final(self) == (Profile { function: v, ..*old(self) }),
    {
        self.function = v;
    }

    /// Empties the `string_table` field.
    pub fn clear_string_table(&mut self)
        ensures
            final(self).string_table@.len() == 0,
            *final(self) == (Profile { string_table: final(self).string_table, ..*old(self) }),
    {
        self.string_table.clear();
    }

    /// Replaces the `string_table` field.
    pub fn set_string_table(&mut self, v: Vec<String>)
        ensures
            *final(self) == (Profile { string_table: v, ..*old(self) }),
    {
        self.string_table = v;
    }

    /// The `drop_frames` field.
    pub fn get_drop_frames(&self) -> (r: i64)
        ensures
            r == self.drop_frames,
    {
        self.drop_frames
    }

    /// Resets the `drop_frames` field to 0.
    pub fn clear_drop_frames(&mut self)
        ensures
            *final(self) == (Profile { drop_frames: 0, ..*old(self) }),
    {
        self.drop_frames = 0;
    }

    /// Replaces the `drop_frames` field.
    pub fn set_drop_frames(&mut self, v: i64)
        ensures
            *final(self) == (Profile { drop_frames: v, ..*old(self) }),
    {
        self.drop_frames = v;
    }

    /// The `keep_frames` field.
    pub fn get_keep_frames(&self) -> (r: i64)
        ensures
            r == self.keep_frames,
    {
        self.keep_frames
    }

    /// Resets the `keep_frames` field to 0.
    pub fn clear_keep_frames(&mut self)
        ensures
            *final(self) == (Profile { keep_frames: 0, ..*old(self) }),
    {
        self.keep_frames = 0;
    }

    /// Replaces the `keep_frames` field.
    pub fn set_keep_frames(&mut self, v: i64)
        ensures
            *final(self) == (Profile { keep_frames: v, ..*old(self) }),
    {
        self.keep_frames = v;
    }

    /// The `time_nanos` field.
    pub fn get_time_nanos(&self) -> (r: i64)
        ensures
            r == self.time_nanos,
    {
        self.time_nanos
    }

    /// Resets the `time_nanos` field to 0.
    pub fn clear_time_nanos(&mut self)
        ensures
            *final(self) == (Profile { time_nanos: 0, ..*old(self) }),
    {
        self.time_nanos = 0;
    }

    /// Replaces the `time_nanos` field.
    pub fn set_time_nanos(&mut self, v: i64)
        ensures
            *final(self) == (Profile { time_nanos: v, ..*old(self) }),
    {
        self.time_nanos = v;
    }

    /// The `duration_nanos` field.
    pub fn get_duration_nanos(&self) -> (r: i64)
        ensures
            r == self.duration_nanos,
    {
        self.duration_nanos
    }

    /// Resets the `duration_nanos` field to 0.
    pub fn clear_duration_nanos(&mut self)
        ensures
            *final(self) == (Profile { duration_nanos: 0, ..*old(self) }),
    {
        self.duration_nanos = 0;
    }

    /// Replaces the `duration_nanos` field.
    pub fn set_duration_nanos(&mut self, v: i64)
        ensures
            *final(self) == (Profile { duration_nanos: v, ..*old(self) }),
    {
        self.duration_nanos = v;
    }

    /// The `period` field.
    pub fn get_period(&self) -> (r: i64)
        ensures
            r == self.period,
    {
        self.period
    }

    /// Resets the `period` field to 0.
    pub fn clear_period(&mut self)
        ensures
            *final(self) == (Profile { period: 0, ..*old(self) }),
    {
        self.period = 0;
    }

    /// Replaces the `period` field.
    pub fn set_period(&mut self, v: i64)
        ensures
            *final(self) == (Profile { period: v, ..*old(self) }),
    {
        self.period = v;
    }

    /// The `comment` field.
    pub fn get_comment(&self) -> (r: &[i64])
        ensures
            r@ == self.comment@,
    {
        self.comment.as_slice()
    }

    /// Empties the `comment` field.
    pub fn clear_comment(&mut self)
        ensures
            final(self).comment@.len() == 0,
            *final(self) == (Profile { comment: final(self).comment, ..*old(self) }),
    {
        self.comment.clear();
    }

    /// Replaces the `comment` field.
    pub fn set_comment(&mut self, v: Vec<i64>)
        ensures
            *final(self) == (Profile { comment: v, ..*old(self) }),
    {
        self.comment = v;
    }

    /// The `comment` field, for changing in place.
    pub fn mut_comment(&mut self) -> (r: &mut Vec<i64>)
        ensures
            *r == old(self).comment,
            *final(self) == (Profile { comment: *final(r), ..*old(self) }),
    {
        &mut self.comment
    }

    /// Moves the `comment` field out, leaving it empty.
    pub fn take_comment(&mut self) -> (r: Vec<i64>)
        ensures
            r == old(self).comment,
            final(self).comment@.len() == 0,
            *final(self) == (Profile { comment: final(self).comment, ..*old(self) }),
    {
        let mut v: Vec<i64> = Vec::new();
        core::mem::swap(&mut self.comment, &mut v);
        v
    }

    /// The `default_sample_type` field.
    pub fn get_default_sample_type(&self) -> (r: i64)
        ensures
            r == self.default_sample_type,
    {
        self.default_sample_type
    }

    /// Resets the `default_sample_type` field to 0.
    pub fn clear_default_sample_type(&mut self)
        ensures
            *final(self) == (Profile { default_sample_type: 0, ..*old(self) }),
    {
        self.default_sample_type = 0;
    }

    /// Replaces the `default_sample_type` field.
    pub fn set_default_sample_type(&mut self, v: i64)
        ensures
            *final(self) == (Profile { default_sample_type: v, ..*old(self) }),
    {
        self.default_sample_type = v;
    }
}

/// The type and unit of a sample value, as string table indexes.
#[derive(Clone, Default)]
pub struct ValueType {
    pub ty: i64,
    pub unit: i64,
}

impl ValueType {
    /// The `type` field.
    pub fn get_type(&self) -> (r: i64)
        ensures
            r == self.ty,
    {
        self.ty
    }

    /// Resets the `type` field to 0.
    pub fn clear_type(&mut self)
        ensures
            *final(self) == (ValueType { ty: 0, ..*old(self) }),
    {
        self.ty = 0;
    }

    /// Replaces the `type` field.
    pub fn set_type(&mut self, v: i64)
        ensures
            *final(self) == (ValueType { ty: v, ..*old(self) }),
    {
        self.ty = v;
    }

    /// The `unit` field.
    pub fn get_unit(&self) -> (r: i64)
        ensures
            r == self.unit,
    {
        self.unit
    }

    /// Resets the `unit` field to 0.
    pub fn clear_unit(&mut self)
        ensures
            *final(self) == (ValueType { unit: 0, ..*old(self) }),
    {
        self.unit = 0;
    }

    /// Replaces the `unit` field.
    pub fn set_unit(&mut self, v: i64)
        ensures
            *final(self) == (ValueType { unit: v, ..*old(self) }),
    {
        self.unit = v;
    }
}

/// One sample: its stack as location ids, its values, and labels.
#[derive(Clone, Default)]
pub struct Sample {
    pub location_id: Vec<u64>,
    pub value: Vec<i64>,
    pub label: Vec<Label>,
}

impl Sample {
    /// Empties the `location_id` field.
    pub fn clear_location_id(&mut self)
        ensures
            final(self).location_id@.len() == 0,
            *final(self) == (Sample { location_id: final(self).location_id, ..*old(self) }),
    {
        self.location_id.clear();
    }

    /// Replaces the `location_id` field.
    pub fn set_location_id(&mut self, v: Vec<u64>)
        ensures
            *final(self) == (Sample { location_id: v, ..*old(self) }),
    {
        self.location_id = v;
    }

    /// The `location_id` field, for changing in place.
    pub fn mut_location_id(&mut self) -> (r: &mut Vec<u64>)
        ensures
            *r == old(self).location_id,
            *final(self) == (Sample { location_id: *final(r), ..*old(self) }),
    {
        &mut self.location_id
    }

    /// Moves the `location_id` field out, leaving it empty.
    pub fn take_location_id(&mut self) -> (r: Vec<u64>)
        ensures
            r == old(self).location_id,
            final(self).location_id@.len() == 0,
            *final(self) == (Sample { location_id: final(self).location_id, ..*old(self) }),
    {
        let mut v: Vec<u64> = Vec::new();
        core::mem::swap(&mut self.location_id, &mut v);
        v
    }

    /// The `value` field.
    pub fn get_value(&self) -> (r: &[i64])
        ensures
            r@ == self.value@,
    {
        self.value.as_slice()
    }

    /// Empties the `value` field.
    pub fn clear_value(&mut self)
        ensures
            final(self).value@.len() == 0,
            *final(self) == (Sample { value: final(self).value, ..*old(self) }),
    {
        self.value.clear();
    }

    /// Replaces the `value` field.
    pub fn set_value(&mut self, v: Vec<i64>)
        ensures
            *final(self) == (Sample { value: v, ..*old(self) }),
    {
        self.value = v;
    }

    /// The `value` field, for changing in place.
    pub fn mut_value(&mut self) -> (r: &mut Vec<i64>)
        ensures
            *r == old(self).value,
            *final(self) == (Sample { value: *final(r), ..*old(self) }),
    {
        &mut self.value
    }

    /// Moves the `value` field out, leaving it empty.
    pub fn take_value(&mut self) -> (r: Vec<i64>)
        ensures
            r == old(self).value,
            final(self).value@.len() == 0,
            *final(self) == (Sample { value: final(self).value, ..*old(self) }),
    {
        let mut v: Vec<i64> = Vec::new();
        core::mem::swap(&mut self.value, &mut v);
        v
    }

    /// Empties the `label` field.
    pub fn clear_label(&mut self)
        ensures
            final(self).label@.len() == 0,
            *final(self) == (Sample { label: final(self).label, ..*old(self) }),
    {
        self.label.clear();
    }

    /// Replaces the `label` field.
    pub fn set_label(&mut self, v: Vec<Label>)
        ensures
            *final(self) == (Sample { label: v, ..*old(self) }),
    {
        self.label = v;
    }
}

/// A key with a string or numeric value attached to a sample.
#[derive(Clone, Default)]
pub struct Label {
    pub key: i64,
    pub str: i64,
    pub num: i64,
    pub num_unit: i64,
}

impl Label {
    /// The `key` field.
    pub fn get_key(&self) -> (r: i64)
        ensures
            r == self.key,
    {
        self.key
    }

    /// Resets the `key` field to 0.
    pub fn clear_key(&mut self)
        ensures
            *final(self) == (Label { key: 0, ..*old(self) }),
    {
        self.key = 0;
    }

    /// Replaces the `key` field.
    pub fn set_key(&mut self, v: i64)
        ensures
            *final(self) == (Label { key: v, ..*old(self) }),
    {
        self.key = v;
    }

    /// The `str` field.
    pub fn get_str(&self) -> (r: i64)
        ensures
            r == self.str,
    {
        self.str
    }

    /// Resets the `str` field to 0.
    pub fn clear_str(&mut self)
        ensures
            *final(self) == (Label { str: 0, ..*old(self) }),
    {
        self.str = 0;
    }

    /// Replaces the `str` field.
    pub fn set_str(&mut self, v: i64)
        ensures
            *final(self) == (Label { str: v, ..*old(self) }),
    {
        self.str = v;
    }

    /// The `num` field.
    pub fn get_num(&self) -> (r: i64)
        ensures
            r == self.num,
    {
        self.num
    }

    /// Resets the `num` field to 0.
    pub fn clear_num(&mut self)
        ensures
            *final(self) == (Label { num: 0, ..*old(self) }),
    {
        self.num = 0;
    }

    /// Replaces the `num` field.
    pub fn set_num(&mut self, v: i64)
        ensures
            *final(self) == (Label { num: v, ..*old(self) }),
    {
        self.num = v;
    }

    /// The `num_unit` field.
    pub fn get_num_unit(&self) -> (r: i64)
        ensures
            r == self.num_unit,
    {
        self.num_unit
    }

    /// Resets the `num_unit` field to 0.
    pub fn clear_num_unit(&mut self)
        ensures
            *final(self) == (Label { num_unit: 0, ..*old(self) }),
    {
        self.num_unit = 0;
    }

    /// Replaces the `num_unit` field.
    pub fn set_num_unit(&mut self, v: i64)
        ensures
            *final(self) == (Label { num_unit: v, ..*old(self) }),
    {
        self.num_unit = v;
    }
}

/// A mapped binary: its address range, file and what symbol data it carries.
#[derive(Clone, Default)]
pub struct Mapping {
    pub id: u64,
    pub memory_start: u64,
    pub memory_limit: u64,
    pub file_offset: u64,
    pub filename: i64,
    pub build_id: i64,
    pub has_functions: bool,
    pub has_filenames: bool,
    pub has_line_numbers: bool,
    pub has_inline_frames: bool,
}

impl Mapping {
    /// The `id` field.
    pub fn get_id(&self) -> (r: u64)
        ensures
            r == self.id,
    {
        self.id
    }

    /// Resets the `id` field to 0.
    pub fn clear_id(&mut self)
        ensures
            *final(self) == (Mapping { id: 0, ..*old(self) }),
    {
        self.id = 0;
    }

    /// Replaces the `id` field.
    pub fn set_id(&mut self, v: u64)
        ensures
            *final(self) == (Mapping { id: v, ..*old(self) }),
    {
        self.id = v;
    }

    /// The `memory_start` field.
    pub fn get_memory_start(&self) -> (r: u64)
        ensures
            r == self.memory_start,
    {
        self.memory_start
    }

    /// Resets the `memory_start` field to 0.
    pub fn clear_memory_start(&mut self)
        ensures
            *final(self) == (Mapping { memory_start: 0, ..*old(self) }),
    {
        self.memory_start = 0;
    }

    /// Replaces the `memory_start` field.
    pub fn set_memory_start(&mut self, v: u64)
        ensures
            *final(self) == (Mapping { memory_start: v, ..*old(self) }),
    {
        self.memory_start = v;
    }

    /// The `memory_limit` field.
    pub fn get_memory_limit(&self) -> (r: u64)
        ensures
            r == self.memory_limit,
    {
        self.memory_limit
    }

    /// Resets the `memory_limit` field to 0.
    pub fn clear_memory_limit(&mut self)
        ensures
            *final(self) == (Mapping { memory_limit: 0, ..*old(self) }),
    {
        self.memory_limit = 0;
    }

    /// Replaces the `memory_limit` field.
    pub fn set_memory_limit(&mut self, v: u64)
        ensures
            *final(self) == (Mapping { memory_limit: v, ..*old(self) }),
    {
        self.memory_limit = v;
    }

    /// The `file_offset` field.
    pub fn get_file_offset(&self) -> (r: u64)
        ensures
            r == self.file_offset,
    {
        self.file_offset
    }

    /// Resets the `file_offset` field to 0.
    pub fn clear_file_offset(&mut self)
        ensures
            *final(self) == (Mapping { file_offset: 0, ..*old(self) }),
    {
        self.file_offset = 0;
    }

    /// Replaces the `file_offset` field.
    pub fn set_file_offset(&mut self, v: u64)
        ensures
            *final(self) == (Mapping { file_offset: v, ..*old(self) }),
    {
        self.file_offset = v;
    }

    /// The `filename` field.
    pub fn get_filename(&self) -> (r: i64)
        ensures
            r == self.filename,
    {
        self.filename
    }

    /// Resets the `filename` field to 0.
    pub fn clear_filename(&mut self)
        ensures
            *final(self) == (Mapping { filename: 0, ..*old(self) }),
    {
        self.filename = 0;
    }

    /// Replaces the `filename` field.
    pub fn set_filename(&mut self, v: i64)
        ensures
            *final(self) == (Mapping { filename: v, ..*old(self) }),
    {
        self.filename = v;
    }

    /// The `build_id` field.
    pub fn get_build_id(&self) -> (r: i64)
        ensures
            r == self.build_id,
    {
        self.build_id
    }

    /// Resets the `build_id` field to 0.
    pub fn clear_build_id(&mut self)
        ensures
            *final(self) == (Mapping { build_id: 0, ..*old(self) }),
    {
        self.build_id = 0;
    }

    /// Replaces the `build_id` field.
    pub fn set_build_id(&mut self, v: i64)
        ensures
            *final(self) == (Mapping { build_id: v, ..*old(self) }),
    {
        self.build_id = v;
    }

    /// The `has_functions` field.
    pub fn get_has_functions(&self) -> (r: bool)
        ensures
            r == self.has_functions,
    {
        self.has_functions
    }

    /// Resets the `has_functions` field to false.
    pub fn clear_has_functions(&mut self)
        ensures
            *final(self) == (Mapping { has_functions: false, ..*old(self) }),
    {
        self.has_functions = false;
    }

    /// Replaces the `has_functions` field.
    pub fn set_has_functions(&mut self, v: bool)
        ensures
            *final(self) == (Mapping { has_functions: v, ..*old(self) }),
    {
        self.has_functions = v;
    }

    /// The `has_filenames` field.
    pub fn get_has_filenames(&self) -> (r: bool)
        ensures
            r == self.has_filenames,
    {
        self.has_filenames
    }

    /// Resets the `has_filenames` field to false.
    pub fn clear_has_filenames(&mut self)
        ensures
            *final(self) == (Mapping { has_filenames: false, ..*old(self) }),
    {
        self.has_filenames = false;
    }

    /// Replaces the `has_filenames` field.
    pub fn set_has_filenames(&mut self, v: bool)
        ensures
            *final(self) == (Mapping { has_filenames: v, ..*old(self) }),
    {
        self.has_filenames = v;
    }

    /// The `has_line_numbers` field.
    pub fn get_has_line_numbers(&self) -> (r: bool)
        ensures
            r == self.has_line_numbers,
    {
        self.has_line_numbers
    }

    /// Resets the `has_line_numbers` field to false.
    pub fn clear_has_line_numbers(&mut self)
        ensures
            *final(self) == (Mapping { has_line_numbers: false, ..*old(self) }),
    {
        self.has_line_numbers = false;
    }

    /// Replaces the `has_line_numbers` field.
    pub fn set_has_line_numbers(&mut self, v: bool)
        ensures
            *final(self) == (Mapping { has_line_numbers: v, ..*old(self) }),
    {
        self.has_line_numbers = v;
    }

    /// The `has_inline_frames` field.
    pub fn get_has_inline_frames(&self) -> (r: bool)
        ensures
            r == self.has_inline_frames,
    {
        self.has_inline_frames
    }

    /// Resets the `has_inline_frames` field to false.
    pub fn clear_has_inline_frames(&mut self)
        ensures
            *final(self) == (Mapping { has_inline_frames: false, ..*old(self) }),
    {
        self.has_inline_frames = false;
    }

    /// Replaces the `has_inline_frames` field.
    pub fn set_has_inline_frames(&mut self, v: bool)
        ensures
            *final(self) == (Mapping { has_inline_frames: v, ..*old(self) }),
    {
        self.has_inline_frames = v;
    }
}

/// A code location: an address in a mapping and the source lines there.
#[derive(Clone, Default)]
pub struct Location {
    pub id: u64,
    pub mapping_id: u64,
    pub address: u64,
    pub line: Vec<Line>,
    pub is_folded: bool,
}

impl Location {
    /// The `id` field.
    pub fn get_id(&self) -> (r: u64)
        ensures
            r == self.id,
    {
        self.id
    }

    /// Resets the `id` field to 0.
    pub fn clear_id(&mut self)
        ensures
            *final(self) == (Location { id: 0, ..*old(self) }),
    {
        self.id = 0;
    }

    /// Replaces the `id` field.
    pub fn set_id(&mut self, v: u64)
        ensures
            *final(self) == (Location { id: v, ..*old(self) }),
    {
        self.id = v;
    }

    /// The `mapping_id` field.
    pub fn get_mapping_id(&self) -> (r: u64)
        ensures
            r == self.mapping_id,
    {
        self.mapping_id
    }

    /// Resets the `mapping_id` field to 0.
    pub fn clear_mapping_id(&mut self)
        ensures
            *final(self) == (Location { mapping_id: 0, ..*old(self) }),
    {
        self.mapping_id = 0;
    }

    /// Replaces the `mapping_id` field.
    pub fn set_mapping_id(&mut self, v: u64)
        ensures
            *final(self) == (Location { mapping_id: v, ..*old(self) }),
    {
        self.mapping_id = v;
    }

    /// The `address` field.
    pub fn get_address(&self) -> (r: u64)
        ensures
            r == self.address,
    {
        self.address
    }

    /// Resets the `address` field to 0.
    pub fn clear_address(&mut self)
        ensures
            *final(self) == (Location { address: 0, ..*old(self) }),
    {
        self.address = 0;
    }

    /// Replaces the `address` field.
    pub fn set_address(&mut self, v: u64)
        ensures
            *final(self) == (Location { address: v, ..*old(self) }),
    {
        self.address = v;
    }

    /// Empties the `line` field.
    pub fn clear_line(&mut self)
        ensures
            final(self).line@.len() == 0,
            *final(self) == (Location { line: final(self).line, ..*old(self) }),
    {
        self.line.clear();
    }

    /// Replaces the `line` field.
    pub fn set_line(&mut self, v: Vec<Line>)
        ensures
            *final(self) == (Location { line: v, ..*old(self) }),
    {
        self.line = v;
    }

    /// The `is_folded` field.
    pub fn get_is_folded(&self) -> (r: bool)
        ensures
            r == self.is_folded,
    {
        self.is_folded
    }

    /// Resets the `is_folded` field to false.
    pub fn clear_is_folded(&mut self)
        ensures
            *final(self) == (Location { is_folded: false, ..*old(self) }),
    {
        self.is_folded = false;
    }

    /// Replaces the `is_folded` field.
    pub fn set_is_folded(&mut self, v: bool)
        ensures
            *final(self) == (Location { is_folded: v, ..*old(self) }),
    {
        self.is_folded = v;
    }
}

/// A source line within a function.
#[derive(Clone, Default)]
pub struct Line {
    pub function_id: u64,
    pub line: i64,
}

impl Line {
    /// The `function_id` field.
    pub fn get_function_id(&self) -> (r: u64)
        ensures
            r == self.function_id,
    {
        self.function_id
    }

    /// Resets the `function_id` field to 0.
    pub fn clear_function_id(&mut self)
        ensures
            *final(self) == (Line { function_id: 0, ..*old(self) }),
    {
        self.function_id = 0;
    }

    /// Replaces the `function_id` field.
    pub fn set_function_id(&mut self, v: u64)
        ensures
            *final(self) == (Line { function_id: v, ..*old(self) }),
    {
        self.function_id = v;
    }

    /// The `line` field.
    pub fn get_line(&self) -> (r: i64)
        ensures
            r == self.line,
    {
        self.line
    }

    /// Resets the `line` field to 0.
    pub fn clear_line(&mut self)
        ensures
            *final(self) == (Line { line: 0, ..*old(self) }),
    {
        self.line = 0;
    }

    /// Replaces the `line` field.
    pub fn set_line(&mut self, v: i64)
        ensures
            *final(self) == (Line { line: v, ..*old(self) }),
    {
        self.line = v;
    }
}

/// A function: its names, source file and first line.
#[derive(Clone, Default)]
pub struct Function {
    pub id: u64,
    pub name: i64,
    pub system_name: i64,
    pub filename: i64,
    pub start_line: i64,
}

impl Function {
    /// The `id` field.
    pub fn get_id(&self) -> (r: u64)
        ensures
            r == self.id,
    {
        self.id
    }

    /// Resets the `id` field to 0.
    pub fn clear_id(&mut self)
        ensures
            *final(self) == (Function { id: 0, ..*old(self) }),
    {
        self.id = 0;
    }

    /// Replaces the `id` field.
    pub fn set_id(&mut self, v: u64)
        ensures
            *final(self) == (Function { id: v, ..*old(self) }),
    {
        self.id = v;
    }

    /// The `name` field.
    pub fn get_name(&self) -> (r: i64)
        ensures
            r == self.name,
    {
        self.name
    }

    /// Resets the `name` field to 0.
    pub fn clear_name(&mut self)
        ensures
            *final(self) == (Function { name: 0, ..*old(self) }),
    {
        self.name = 0;
    }

    /// Replaces the `name` field.
    pub fn set_name(&mut self, v: i64)
        ensures
            *final(self) == (Function { name: v, ..*old(self) }),
    {
        self.name = v;
    }

    /// The `system_name` field.
    pub fn get_system_name(&self) -> (r: i64)
        ensures
            r == self.system_name,
    {
        self.system_name
    }

    /// Resets the `system_name` field to 0.
    pub fn clear_system_name(&mut self)
        ensures
            *final(self) == (Function { system_name: 0, ..*old(self) }),
    {
        self.system_name = 0;
    }

    /// Replaces the `system_name` field.
    pub fn set_system_name(&mut self, v: i64)
        ensures
            *final(self) == (Function { system_name: v, ..*old(self) }),
    {
        self.system_name = v;
    }

    /// The `filename` field.
    pub fn get_filename(&self) -> (r: i64)
        ensures
            r == self.filename,
    {
        self.filename
    }

    /// Resets the `filename` field to 0.
    pub fn clear_filename(&mut self)
        ensures
            *final(self) == (Function { filename: 0, ..*old(self) }),
    {
        self.filename = 0;
    }

    /// Replaces the `filename` field.
    pub fn set_filename(&mut self, v: i64)
        ensures
            *final(self) == (Function { filename: v, ..*old(self) }),
    {
        self.filename = v;
    }

    /// The `start_line` field.
    pub fn get_start_line(&self) -> (r: i64)
        ensures
            r == self.start_line,
    {
        self.start_line
    }

    /// Resets the `start_line` field to 0.
    pub fn clear_start_line(&mut self)
        ensures
            *final(self) == (Function { start_line: 0, ..*old(self) }),
    {
        self.start_line = 0;
    }

    /// Replaces the `start_line` field.
    pub fn set_start_line(&mut self, v: i64)
        ensures
            *final(self) == (Function { start_line: v, ..*old(self) }),
    {
        self.start_line = v;
    }
}

} // verus!
