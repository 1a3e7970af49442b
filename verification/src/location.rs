use vstd::prelude::*;

verus! {

/// The mathematical value of a `Location`.
pub ghost struct LocationV {
    pub filepath: Seq<u8>,
    pub local_line_num: int,
    pub global_line_num: int,
}

/// Maps a point of the synthesized output stream back to its originating file
/// and line: `global_line_num` is the output line count when the entry was
/// recorded, `local_line_num` the line number inside `filepath`.
#[derive(Debug)]
pub struct Location {
    filepath: Vec<u8>,
    local_line_num: usize,
    global_line_num: usize,
}

impl View for Location {
    type V = LocationV;

    closed spec fn view(&self) -> LocationV {
        LocationV {
            filepath: self.filepath@,
            local_line_num: self.local_line_num as int,
            global_line_num: self.global_line_num as int,
        }
    }
}

impl Location {
    pub fn new(filepath: Vec<u8>, local_line_num: usize, global_line_num: usize) -> (r: Self)
        ensures
            r@ == (LocationV {
                filepath: filepath@,
                local_line_num: local_line_num as int,
                global_line_num: global_line_num as int,
            }),
    {
        Location { filepath, local_line_num, global_line_num }
    }

    pub fn global_line_num(&self) -> (r: usize)
        ensures
            r == self@.global_line_num,
    {
        self.global_line_num
    }

    pub fn local_line_num(&self) -> (r: usize)
        ensures
            r == self@.local_line_num,
    {
        self.local_line_num
    }

    pub fn filepath(&self) -> (r: &Vec<u8>)
        ensures
            r@ == self@.filepath,
    {
        &self.filepath
    }
}

} // verus!
