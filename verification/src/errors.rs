use vstd::prelude::*;

verus! {

/// The two directional faces a brick may connect on.
#[derive(Clone, Copy, PartialEq, Eq, Structural, Debug)]
pub enum Side {
    West,
    East,
}

impl Side {
    /// Parses the textual side selector used by control requests;
    /// only "west" and "east" are accepted.
    pub fn from_str(s: &String) -> (r: Option<Side>)
        ensures
            r == Some(Side::West) <==> s@ == "west"@,
            r == Some(Side::East) <==> s@ == "east"@,
            r is None <==> (s@ != "west"@ && s@ != "east"@),
    {
        proof {
            reveal_strlit("west");
            reveal_strlit("east");
            assert("west"@.index(0) == 'w');
            assert("east"@.index(0) == 'e');
            assert("west"@ != "east"@);
        }
        let west: String = "west".to_owned();
        let east: String = "east".to_owned();
        if *s == west {
            Some(Side::West)
        } else if *s == east {
            Some(Side::East)
        } else {
            None
        }
    }
}

/// Every way a control operation can be refused. Lookup failures
/// (the `NotFound` family) are distinct from the error envelope at the
/// transport boundary; both are plain refusals here.
#[derive(Clone, Copy, PartialEq, Eq, Structural, Debug)]
pub enum ApiError {
    /// The named graph is not registered.
    GraphNotFound,
    /// A graph of that name is already registered.
    GraphAlreadyExists,
    /// The named brick is not in the graph.
    BrickNotFound,
    /// A brick of that name is already in the graph.
    BrickAlreadyExists,
    /// The west brick of a link/unlink pair is missing.
    WestBrickNotFound,
    /// The east brick of a link/unlink pair is missing.
    EastBrickNotFound,
    /// Both bricks of a link/unlink pair are missing.
    WestAndEastBricksNotFound,
    /// A side selector was neither "west" nor "east".
    InvalidSide,
    /// A nic needs exactly one of a virtual device or a physical port.
    NicParameters,
    /// The operation needs a firewall but the named brick is another kind.
    WrongBrickKind,
    /// A link attempt found no free port on the requested side.
    PortsExhausted,
    /// An unlink attempt found no link between the two bricks.
    NotLinked,
}

impl ApiError {
    /// The description carried in the error envelope for this refusal.
    pub open spec fn desc(self) -> Seq<char> {
        match self {
            ApiError::GraphNotFound => "graph not found"@,
            ApiError::GraphAlreadyExists => "graph already exists"@,
            ApiError::BrickNotFound => "brick not found"@,
            ApiError::BrickAlreadyExists => "brick already exists"@,
            ApiError::WestBrickNotFound => "west brick not found"@,
            ApiError::EastBrickNotFound => "east brick not found"@,
            ApiError::WestAndEastBricksNotFound => "west and east bricks not found"@,
            ApiError::InvalidSide => "choose west or east for side parameter"@,
            ApiError::NicParameters => "must specify either 'port' or 'vdev' parameters"@,
            ApiError::WrongBrickKind => "brick is not a firewall"@,
            ApiError::PortsExhausted => "no free port on the requested side"@,
            ApiError::NotLinked => "bricks are not linked"@,
        }
    }

    /// Renders the refusal as the description string of the envelope.
    pub fn description(&self) -> (r: String)
        ensures
            r@ == self.desc(),
    {
        match self {
            ApiError::GraphNotFound => "graph not found".to_owned(),
            ApiError::GraphAlreadyExists => "graph already exists".to_owned(),
            ApiError::BrickNotFound => "brick not found".to_owned(),
            ApiError::BrickAlreadyExists => "brick already exists".to_owned(),
            ApiError::WestBrickNotFound => "west brick not found".to_owned(),
            ApiError::EastBrickNotFound => "east brick not found".to_owned(),
            ApiError::WestAndEastBricksNotFound => "west and east bricks not found".to_owned(),
            ApiError::InvalidSide => "choose west or east for side parameter".to_owned(),
            ApiError::NicParameters => "must specify either 'port' or 'vdev' parameters".to_owned(),
            ApiError::WrongBrickKind => "brick is not a firewall".to_owned(),
            ApiError::PortsExhausted => "no free port on the requested side".to_owned(),
            ApiError::NotLinked => "bricks are not linked".to_owned(),
        }
    }
}

} // verus!
