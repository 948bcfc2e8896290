use vstd::prelude::*;

verus! {

/// Every kind of object that can be placed on a cell of an object grid: decorations, path pieces, building parts and
/// field tiles. The declaration order defines each name's ordinal (see [`ObjectName::ordinal`]).
#[derive(Clone, Copy, Debug, PartialEq, Eq, Hash, Structural)]
pub enum ObjectName {
    Empty,
    SandStone1,
    SandStone2,
    SandStone3,
    SandStone4,
    SandStone5,
    SandStone6,
    SandGrassPatch1,
    SandGrassPatch2,
    SandPattern1,
    SandPattern2,
    SandPattern3,
    SandPattern4,
    SandPattern5,
    SandPathLeft,
    SandPathRight,
    SandPathTop,
    SandPathBottom,
    SandPathCross,
    SandPathHorizontal,
    SandPathVertical,
    SandStoneTopFill1,
    SandStoneTopFill2,
    SandStoneTopRightFill,
    SandStoneTopLeftFill,
    SandStoneRightFill,
    SandStoneLeftFill,
    SandStoneBottomRightFill,
    SandStoneBottomLeftFill,
    GrassRubbleLeft,
    GrassRubbleRight,
    GrassRubbleTop,
    GrassRubbleBottom,
    GrassRubbleCross,
    GrassRubbleHorizontal,
    GrassRubbleVertical,
    GrassRubbleVerticalForestTop,
    GrassRubbleVerticalForestBottom,
    GrassRubbleHorizontalForestRight,
    GrassRubbleHorizontalForestLeft,
    GrassBush1,
    GrassBush2,
    GrassBush3,
    GrassBush4,
    GrassFlower1,
    GrassFlower2,
    GrassFlower3,
    ForestRuinLeft,
    ForestRuinRight,
    ForestRuinTop,
    ForestRuinBottom,
    ForestRuinCross,
    ForestRuinHorizontal,
    ForestRuinVertical,
    ForestRuinVerticalGrassTop,
    ForestRuinVerticalGrassBottom,
    ForestRuinHorizontalGrassRight,
    ForestRuinHorizontalGrassLeft,
    ForestTree1,
    ForestTree2,
    ForestTree3,
    ForestTree4,
    ForestTree5,
    ForestBush1,
    ForestBush2,
    ForestBush3,
    ForestBush4,
    PathRight,
    PathHorizontal,
    PathCross,
    PathVertical,
    PathBottom,
    PathTop,
    PathLeft,
    PathTopRight,
    PathTopLeft,
    PathBottomRight,
    PathBottomLeft,
    PathTopHorizontal,
    PathBottomHorizontal,
    PathLeftVertical,
    PathRightVertical,
    PathUndefined,
    HouseSmallRoofLeft1,
    HouseSmallRoofMiddle1,
    HouseSmallRoofRight1,
    HouseSmallWallLeft,
    HouseSmallDoorMiddle,
    HouseSmallWallRight,
    HouseSmallRoofLeft2,
    HouseSmallRoofMiddle2,
    HouseSmallRoofRight2,
    HouseSmallDoorLeft1,
    HouseSmallWallMiddle1,
    HouseSmallDoorRight1,
    HouseSmallRoofLeft3,
    HouseSmallRoofMiddle3,
    HouseSmallRoofRight3,
    HouseSmallDoorLeft2,
    HouseSmallWallMiddle2,
    HouseSmallDoorRight2,
    HouseMediumRoofLeft1,
    HouseMediumRoofMiddle1,
    HouseMediumRoofRight1,
    HouseMediumWallLeft,
    HouseMediumDoorMiddle,
    HouseMediumWallRight,
    HouseMediumRoofLeft2,
    HouseMediumRoofMiddle2,
    HouseMediumRoofRight2,
    HouseMediumDoorLeft1,
    HouseMediumWallMiddle1,
    HouseMediumDoorRight1,
    HouseMediumRoofLeft3,
    HouseMediumRoofMiddle3,
    HouseMediumRoofRight3,
    HouseMediumDoorLeft2,
    HouseMediumWallMiddle2,
    HouseMediumDoorRight2,
    WheatFieldFill,
    WheatFieldSideTop,
    WheatFieldSideRight,
    WheatFieldSideBottom,
    WheatFieldSideLeft,
    WheatFieldOuterCornerTopLeft,
    WheatFieldOuterCornerTopRight,
    WheatFieldOuterCornerBottomRight,
    WheatFieldOuterCornerBottomLeft,
    WheatFieldInnerCornerTopLeft,
    WheatFieldInnerCornerTopRight,
    WheatFieldInnerCornerBottomRight,
    WheatFieldInnerCornerBottomLeft,
    PastureFill,
    PastureSideTop,
    PastureSideRight,
    PastureSideBottom,
    PastureSideLeft,
    PastureOuterCornerTopLeft,
    PastureOuterCornerTopRight,
    PastureOuterCornerBottomRight,
    PastureOuterCornerBottomLeft,
    PastureInnerCornerTopLeft,
    PastureInnerCornerTopRight,
    PastureInnerCornerBottomRight,
    PastureInnerCornerBottomLeft,
    Land1IndividualObject1,
}

/// The number of variants of [`ObjectName`].
pub const OBJECT_NAME_COUNT: usize = 146;

impl ObjectName {
    /// The position of this name in the declaration order of [`ObjectName`].
    pub open spec fn ordinal(self) -> nat {
        match self {
            ObjectName::Empty => 0,
            ObjectName::SandStone1 => 1,
            ObjectName::SandStone2 => 2,
            ObjectName::SandStone3 => 3,
            ObjectName::SandStone4 => 4,
            ObjectName::SandStone5 => 5,
            ObjectName::SandStone6 => 6,
            ObjectName::SandGrassPatch1 => 7,
            ObjectName::SandGrassPatch2 => 8,
            ObjectName::SandPattern1 => 9,
            ObjectName::SandPattern2 => 10,
            ObjectName::SandPattern3 => 11,
            ObjectName::SandPattern4 => 12,
            ObjectName::SandPattern5 => 13,
            ObjectName::SandPathLeft => 14,
            ObjectName::SandPathRight => 15,
            ObjectName::SandPathTop => 16,
            ObjectName::SandPathBottom => 17,
            ObjectName::SandPathCross => 18,
            ObjectName::SandPathHorizontal => 19,
            ObjectName::SandPathVertical => 20,
            ObjectName::SandStoneTopFill1 => 21,
            ObjectName::SandStoneTopFill2 => 22,
            ObjectName::SandStoneTopRightFill => 23,
            ObjectName::SandStoneTopLeftFill => 24,
            ObjectName::SandStoneRightFill => 25,
            ObjectName::SandStoneLeftFill => 26,
            ObjectName::SandStoneBottomRightFill => 27,
            ObjectName::SandStoneBottomLeftFill => 28,
            ObjectName::GrassRubbleLeft => 29,
            ObjectName::GrassRubbleRight => 30,
            ObjectName::GrassRubbleTop => 31,
            ObjectName::GrassRubbleBottom => 32,
            ObjectName::GrassRubbleCross => 33,
            ObjectName::GrassRubbleHorizontal => 34,
            ObjectName::GrassRubbleVertical => 35,
            ObjectName::GrassRubbleVerticalForestTop => 36,
            ObjectName::GrassRubbleVerticalForestBottom => 37,
            ObjectName::GrassRubbleHorizontalForestRight => 38,
            ObjectName::GrassRubbleHorizontalForestLeft => 39,
            ObjectName::GrassBush1 => 40,
            ObjectName::GrassBush2 => 41,
            ObjectName::GrassBush3 => 42,
            ObjectName::GrassBush4 => 43,
            ObjectName::GrassFlower1 => 44,
            ObjectName::GrassFlower2 => 45,
            ObjectName::GrassFlower3 => 46,
            ObjectName::ForestRuinLeft => 47,
            ObjectName::ForestRuinRight => 48,
            ObjectName::ForestRuinTop => 49,
            ObjectName::ForestRuinBottom => 50,
            ObjectName::ForestRuinCross => 51,
            ObjectName::ForestRuinHorizontal => 52,
            ObjectName::ForestRuinVertical => 53,
            ObjectName::ForestRuinVerticalGrassTop => 54,
            ObjectName::ForestRuinVerticalGrassBottom => 55,
            ObjectName::ForestRuinHorizontalGrassRight => 56,
            ObjectName::ForestRuinHorizontalGrassLeft => 57,
            ObjectName::ForestTree1 => 58,
            ObjectName::ForestTree2 => 59,
            ObjectName::ForestTree3 => 60,
            ObjectName::ForestTree4 => 61,
            ObjectName::ForestTree5 => 62,
            ObjectName::ForestBush1 => 63,
            ObjectName::ForestBush2 => 64,
            ObjectName::ForestBush3 => 65,
            ObjectName::ForestBush4 => 66,
            ObjectName::PathRight => 67,
            ObjectName::PathHorizontal => 68,
            ObjectName::PathCross => 69,
            ObjectName::PathVertical => 70,
            ObjectName::PathBottom => 71,
            ObjectName::PathTop => 72,
            ObjectName::PathLeft => 73,
            ObjectName::PathTopRight => 74,
            ObjectName::PathTopLeft => 75,
            ObjectName::PathBottomRight => 76,
            ObjectName::PathBottomLeft => 77,
            ObjectName::PathTopHorizontal => 78,
            ObjectName::PathBottomHorizontal => 79,
            ObjectName::PathLeftVertical => 80,
            ObjectName::PathRightVertical => 81,
            ObjectName::PathUndefined => 82,
            ObjectName::HouseSmallRoofLeft1 => 83,
            ObjectName::HouseSmallRoofMiddle1 => 84,
            ObjectName::HouseSmallRoofRight1 => 85,
            ObjectName::HouseSmallWallLeft => 86,
            ObjectName::HouseSmallDoorMiddle => 87,
            ObjectName::HouseSmallWallRight => 88,
            ObjectName::HouseSmallRoofLeft2 => 89,
            ObjectName::HouseSmallRoofMiddle2 => 90,
            ObjectName::HouseSmallRoofRight2 => 91,
            ObjectName::HouseSmallDoorLeft1 => 92,
            ObjectName::HouseSmallWallMiddle1 => 93,
            ObjectName::HouseSmallDoorRight1 => 94,
            ObjectName::HouseSmallRoofLeft3 => 95,
            ObjectName::HouseSmallRoofMiddle3 => 96,
            ObjectName::HouseSmallRoofRight3 => 97,
            ObjectName::HouseSmallDoorLeft2 => 98,
            ObjectName::HouseSmallWallMiddle2 => 99,
            ObjectName::HouseSmallDoorRight2 => 100,
            ObjectName::HouseMediumRoofLeft1 => 101,
            ObjectName::HouseMediumRoofMiddle1 => 102,
            ObjectName::HouseMediumRoofRight1 => 103,
            ObjectName::HouseMediumWallLeft => 104,
            ObjectName::HouseMediumDoorMiddle => 105,
            ObjectName::HouseMediumWallRight => 106,
            ObjectName::HouseMediumRoofLeft2 => 107,
            ObjectName::HouseMediumRoofMiddle2 => 108,
            ObjectName::HouseMediumRoofRight2 => 109,
            ObjectName::HouseMediumDoorLeft1 => 110,
            ObjectName::HouseMediumWallMiddle1 => 111,
            ObjectName::HouseMediumDoorRight1 => 112,
            ObjectName::HouseMediumRoofLeft3 => 113,
            ObjectName::HouseMediumRoofMiddle3 => 114,
            ObjectName::HouseMediumRoofRight3 => 115,
            ObjectName::HouseMediumDoorLeft2 => 116,
            ObjectName::HouseMediumWallMiddle2 => 117,
            ObjectName::HouseMediumDoorRight2 => 118,
            ObjectName::WheatFieldFill => 119,
            ObjectName::WheatFieldSideTop => 120,
            ObjectName::WheatFieldSideRight => 121,
            ObjectName::WheatFieldSideBottom => 122,
            ObjectName::WheatFieldSideLeft => 123,
            ObjectName::WheatFieldOuterCornerTopLeft => 124,
            ObjectName::WheatFieldOuterCornerTopRight => 125,
            ObjectName::WheatFieldOuterCornerBottomRight => 126,
            ObjectName::WheatFieldOuterCornerBottomLeft => 127,
            ObjectName::WheatFieldInnerCornerTopLeft => 128,
            ObjectName::WheatFieldInnerCornerTopRight => 129,
            ObjectName::WheatFieldInnerCornerBottomRight => 130,
            ObjectName::WheatFieldInnerCornerBottomLeft => 131,
            ObjectName::PastureFill => 132,
            ObjectName::PastureSideTop => 133,
            ObjectName::PastureSideRight => 134,
            ObjectName::PastureSideBottom => 135,
            ObjectName::PastureSideLeft => 136,
            ObjectName::PastureOuterCornerTopLeft => 137,
            ObjectName::PastureOuterCornerTopRight => 138,
            ObjectName::PastureOuterCornerBottomRight => 139,
            ObjectName::PastureOuterCornerBottomLeft => 140,
            ObjectName::PastureInnerCornerTopLeft => 141,
            ObjectName::PastureInnerCornerTopRight => 142,
            ObjectName::PastureInnerCornerBottomRight => 143,
            ObjectName::PastureInnerCornerBottomLeft => 144,
            ObjectName::Land1IndividualObject1 => 145,
        }
    }

    /// The name at the given ordinal; [`ObjectName::Empty`] for ordinals that are out of range.
    pub open spec fn from_ordinal(n: nat) -> ObjectName {
        if n == 0 { ObjectName::Empty }
        else if n == 1 { ObjectName::SandStone1 }
        else if n == 2 { ObjectName::SandStone2 }
        else if n == 3 { ObjectName::SandStone3 }
        else if n == 4 { ObjectName::SandStone4 }
        else if n == 5 { ObjectName::SandStone5 }
        else if n == 6 { ObjectName::SandStone6 }
        else if n == 7 { ObjectName::SandGrassPatch1 }
        else if n == 8 { ObjectName::SandGrassPatch2 }
        else if n == 9 { ObjectName::SandPattern1 }
        else if n == 10 { ObjectName::SandPattern2 }
        else if n == 11 { ObjectName::SandPattern3 }
        else if n == 12 { ObjectName::SandPattern4 }
        else if n == 13 { ObjectName::SandPattern5 }
        else if n == 14 { ObjectName::SandPathLeft }
        else if n == 15 { ObjectName::SandPathRight }
        else if n == 16 { ObjectName::SandPathTop }
        else if n == 17 { ObjectName::SandPathBottom }
        else if n == 18 { ObjectName::SandPathCross }
        else if n == 19 { ObjectName::SandPathHorizontal }
        else if n == 20 { ObjectName::SandPathVertical }
        else if n == 21 { ObjectName::SandStoneTopFill1 }
        else if n == 22 { ObjectName::SandStoneTopFill2 }
        else if n == 23 { ObjectName::SandStoneTopRightFill }
        else if n == 24 { ObjectName::SandStoneTopLeftFill }
        else if n == 25 { ObjectName::SandStoneRightFill }
        else if n == 26 { ObjectName::SandStoneLeftFill }
        else if n == 27 { ObjectName::SandStoneBottomRightFill }
        else if n == 28 { ObjectName::SandStoneBottomLeftFill }
        else if n == 29 { ObjectName::GrassRubbleLeft }
        else if n == 30 { ObjectName::GrassRubbleRight }
        else if n == 31 { ObjectName::GrassRubbleTop }
        else if n == 32 { ObjectName::GrassRubbleBottom }
        else if n == 33 { ObjectName::GrassRubbleCross }
        else if n == 34 { ObjectName::GrassRubbleHorizontal }
        else if n == 35 { ObjectName::GrassRubbleVertical }
        else if n == 36 { ObjectName::GrassRubbleVerticalForestTop }
        else if n == 37 { ObjectName::GrassRubbleVerticalForestBottom }
        else if n == 38 { ObjectName::GrassRubbleHorizontalForestRight }
        else if n == 39 { ObjectName::GrassRubbleHorizontalForestLeft }
        else if n == 40 { ObjectName::GrassBush1 }
        else if n == 41 { ObjectName::GrassBush2 }
        else if n == 42 { ObjectName::GrassBush3 }
        else if n == 43 { ObjectName::GrassBush4 }
        else if n == 44 { ObjectName::GrassFlower1 }
        else if n == 45 { ObjectName::GrassFlower2 }
        else if n == 46 { ObjectName::GrassFlower3 }
        else if n == 47 { ObjectName::ForestRuinLeft }
        else if n == 48 { ObjectName::ForestRuinRight }
        else if n == 49 { ObjectName::ForestRuinTop }
        else if n == 50 { ObjectName::ForestRuinBottom }
        else if n == 51 { ObjectName::ForestRuinCross }
        else if n == 52 { ObjectName::ForestRuinHorizontal }
        else if n == 53 { ObjectName::ForestRuinVertical }
        else if n == 54 { ObjectName::ForestRuinVerticalGrassTop }
        else if n == 55 { ObjectName::ForestRuinVerticalGrassBottom }
        else if n == 56 { ObjectName::ForestRuinHorizontalGrassRight }
        else if n == 57 { ObjectName::ForestRuinHorizontalGrassLeft }
        else if n == 58 { ObjectName::ForestTree1 }
        else if n == 59 { ObjectName::ForestTree2 }
        else if n == 60 { ObjectName::ForestTree3 }
        else if n == 61 { ObjectName::ForestTree4 }
        else if n == 62 { ObjectName::ForestTree5 }
        else if n == 63 { ObjectName::ForestBush1 }
        else if n == 64 { ObjectName::ForestBush2 }
        else if n == 65 { ObjectName::ForestBush3 }
        else if n == 66 { ObjectName::ForestBush4 }
        else if n == 67 { ObjectName::PathRight }
        else if n == 68 { ObjectName::PathHorizontal }
        else if n == 69 { ObjectName::PathCross }
        else if n == 70 { ObjectName::PathVertical }
        else if n == 71 { ObjectName::PathBottom }
        else if n == 72 { ObjectName::PathTop }
        else if n == 73 { ObjectName::PathLeft }
        else if n == 74 { ObjectName::PathTopRight }
        else if n == 75 { ObjectName::PathTopLeft }
        else if n == 76 { ObjectName::PathBottomRight }
        else if n == 77 { ObjectName::PathBottomLeft }
        else if n == 78 { ObjectName::PathTopHorizontal }
        else if n == 79 { ObjectName::PathBottomHorizontal }
        else if n == 80 { ObjectName::PathLeftVertical }
        else if n == 81 { ObjectName::PathRightVertical }
        else if n == 82 { ObjectName::PathUndefined }
        else if n == 83 { ObjectName::HouseSmallRoofLeft1 }
        else if n == 84 { ObjectName::HouseSmallRoofMiddle1 }
        else if n == 85 { ObjectName::HouseSmallRoofRight1 }
        else if n == 86 { ObjectName::HouseSmallWallLeft }
        else if n == 87 { ObjectName::HouseSmallDoorMiddle }
        else if n == 88 { ObjectName::HouseSmallWallRight }
        else if n == 89 { ObjectName::HouseSmallRoofLeft2 }
        else if n == 90 { ObjectName::HouseSmallRoofMiddle2 }
        else if n == 91 { ObjectName::HouseSmallRoofRight2 }
        else if n == 92 { ObjectName::HouseSmallDoorLeft1 }
        else if n == 93 { ObjectName::HouseSmallWallMiddle1 }
        else if n == 94 { ObjectName::HouseSmallDoorRight1 }
        else if n == 95 { ObjectName::HouseSmallRoofLeft3 }
        else if n == 96 { ObjectName::HouseSmallRoofMiddle3 }
        else if n == 97 { ObjectName::HouseSmallRoofRight3 }
        else if n == 98 { ObjectName::HouseSmallDoorLeft2 }
        else if n == 99 { ObjectName::HouseSmallWallMiddle2 }
        else if n == 100 { ObjectName::HouseSmallDoorRight2 }
        else if n == 101 { ObjectName::HouseMediumRoofLeft1 }
        else if n == 102 { ObjectName::HouseMediumRoofMiddle1 }
        else if n == 103 { ObjectName::HouseMediumRoofRight1 }
        else if n == 104 { ObjectName::HouseMediumWallLeft }
        else if n == 105 { ObjectName::HouseMediumDoorMiddle }
        else if n == 106 { ObjectName::HouseMediumWallRight }
        else if n == 107 { ObjectName::HouseMediumRoofLeft2 }
        else if n == 108 { ObjectName::HouseMediumRoofMiddle2 }
        else if n == 109 { ObjectName::HouseMediumRoofRight2 }
        else if n == 110 { ObjectName::HouseMediumDoorLeft1 }
        else if n == 111 { ObjectName::HouseMediumWallMiddle1 }
        else if n == 112 { ObjectName::HouseMediumDoorRight1 }
        else if n == 113 { ObjectName::HouseMediumRoofLeft3 }
        else if n == 114 { ObjectName::HouseMediumRoofMiddle3 }
        else if n == 115 { ObjectName::HouseMediumRoofRight3 }
        else if n == 116 { ObjectName::HouseMediumDoorLeft2 }
        else if n == 117 { ObjectName::HouseMediumWallMiddle2 }
        else if n == 118 { ObjectName::HouseMediumDoorRight2 }
        else if n == 119 { ObjectName::WheatFieldFill }
        else if n == 120 { ObjectName::WheatFieldSideTop }
        else if n == 121 { ObjectName::WheatFieldSideRight }
        else if n == 122 { ObjectName::WheatFieldSideBottom }
        else if n == 123 { ObjectName::WheatFieldSideLeft }
        else if n == 124 { ObjectName::WheatFieldOuterCornerTopLeft }
        else if n == 125 { ObjectName::WheatFieldOuterCornerTopRight }
        else if n == 126 { ObjectName::WheatFieldOuterCornerBottomRight }
        else if n == 127 { ObjectName::WheatFieldOuterCornerBottomLeft }
        else if n == 128 { ObjectName::WheatFieldInnerCornerTopLeft }
        else if n == 129 { ObjectName::WheatFieldInnerCornerTopRight }
        else if n == 130 { ObjectName::WheatFieldInnerCornerBottomRight }
        else if n == 131 { ObjectName::WheatFieldInnerCornerBottomLeft }
        else if n == 132 { ObjectName::PastureFill }
        else if n == 133 { ObjectName::PastureSideTop }
        else if n == 134 { ObjectName::PastureSideRight }
        else if n == 135 { ObjectName::PastureSideBottom }
        else if n == 136 { ObjectName::PastureSideLeft }
        else if n == 137 { ObjectName::PastureOuterCornerTopLeft }
        else if n == 138 { ObjectName::PastureOuterCornerTopRight }
        else if n == 139 { ObjectName::PastureOuterCornerBottomRight }
        else if n == 140 { ObjectName::PastureOuterCornerBottomLeft }
        else if n == 141 { ObjectName::PastureInnerCornerTopLeft }
        else if n == 142 { ObjectName::PastureInnerCornerTopRight }
        else if n == 143 { ObjectName::PastureInnerCornerBottomRight }
        else if n == 144 { ObjectName::PastureInnerCornerBottomLeft }
        else if n == 145 { ObjectName::Land1IndividualObject1 }
        else { ObjectName::Empty }
    }

    /// Returns the ordinal of this name, i.e. its position in the declaration order.
    pub fn to_index(&self) -> (index: usize)
        ensures
            index == self.ordinal(),
            index < OBJECT_NAME_COUNT,
    {
        match self {
            ObjectName::Empty => 0,
            ObjectName::SandStone1 => 1,
            ObjectName::SandStone2 => 2,
            ObjectName::SandStone3 => 3,
            ObjectName::SandStone4 => 4,
            ObjectName::SandStone5 => 5,
            ObjectName::SandStone6 => 6,
            ObjectName::SandGrassPatch1 => 7,
            ObjectName::SandGrassPatch2 => 8,
            ObjectName::SandPattern1 => 9,
            ObjectName::SandPattern2 => 10,
            ObjectName::SandPattern3 => 11,
            ObjectName::SandPattern4 => 12,
            ObjectName::SandPattern5 => 13,
            ObjectName::SandPathLeft => 14,
            ObjectName::SandPathRight => 15,
            ObjectName::SandPathTop => 16,
            ObjectName::SandPathBottom => 17,
            ObjectName::SandPathCross => 18,
            ObjectName::SandPathHorizontal => 19,
            ObjectName::SandPathVertical => 20,
            ObjectName::SandStoneTopFill1 => 21,
            ObjectName::SandStoneTopFill2 => 22,
            ObjectName::SandStoneTopRightFill => 23,
            ObjectName::SandStoneTopLeftFill => 24,
            ObjectName::SandStoneRightFill => 25,
            ObjectName::SandStoneLeftFill => 26,
            ObjectName::SandStoneBottomRightFill => 27,
            ObjectName::SandStoneBottomLeftFill => 28,
            ObjectName::GrassRubbleLeft => 29,
            ObjectName::GrassRubbleRight => 30,
            ObjectName::GrassRubbleTop => 31,
            ObjectName::GrassRubbleBottom => 32,
            ObjectName::GrassRubbleCross => 33,
            ObjectName::GrassRubbleHorizontal => 34,
            ObjectName::GrassRubbleVertical => 35,
            ObjectName::GrassRubbleVerticalForestTop => 36,
            ObjectName::GrassRubbleVerticalForestBottom => 37,
            ObjectName::GrassRubbleHorizontalForestRight => 38,
            ObjectName::GrassRubbleHorizontalForestLeft => 39,
            ObjectName::GrassBush1 => 40,
            ObjectName::GrassBush2 => 41,
            ObjectName::GrassBush3 => 42,
            ObjectName::GrassBush4 => 43,
            ObjectName::GrassFlower1 => 44,
            ObjectName::GrassFlower2 => 45,
            ObjectName::GrassFlower3 => 46,
            ObjectName::ForestRuinLeft => 47,
            ObjectName::ForestRuinRight => 48,
            ObjectName::ForestRuinTop => 49,
            ObjectName::ForestRuinBottom => 50,
            ObjectName::ForestRuinCross => 51,
            ObjectName::ForestRuinHorizontal => 52,
            ObjectName::ForestRuinVertical => 53,
            ObjectName::ForestRuinVerticalGrassTop => 54,
            ObjectName::ForestRuinVerticalGrassBottom => 55,
            ObjectName::ForestRuinHorizontalGrassRight => 56,
            ObjectName::ForestRuinHorizontalGrassLeft => 57,
            ObjectName::ForestTree1 => 58,
            ObjectName::ForestTree2 => 59,
            ObjectName::ForestTree3 => 60,
            ObjectName::ForestTree4 => 61,
            ObjectName::ForestTree5 => 62,
            ObjectName::ForestBush1 => 63,
            ObjectName::ForestBush2 => 64,
            ObjectName::ForestBush3 => 65,
            ObjectName::ForestBush4 => 66,
            ObjectName::PathRight => 67,
            ObjectName::PathHorizontal => 68,
            ObjectName::PathCross => 69,
            ObjectName::PathVertical => 70,
            ObjectName::PathBottom => 71,
            ObjectName::PathTop => 72,
            ObjectName::PathLeft => 73,
            ObjectName::PathTopRight => 74,
            ObjectName::PathTopLeft => 75,
            ObjectName::PathBottomRight => 76,
            ObjectName::PathBottomLeft => 77,
            ObjectName::PathTopHorizontal => 78,
            ObjectName::PathBottomHorizontal => 79,
            ObjectName::PathLeftVertical => 80,
            ObjectName::PathRightVertical => 81,
            ObjectName::PathUndefined => 82,
            ObjectName::HouseSmallRoofLeft1 => 83,
            ObjectName::HouseSmallRoofMiddle1 => 84,
            ObjectName::HouseSmallRoofRight1 => 85,
            ObjectName::HouseSmallWallLeft => 86,
            ObjectName::HouseSmallDoorMiddle => 87,
            ObjectName::HouseSmallWallRight => 88,
            ObjectName::HouseSmallRoofLeft2 => 89,
            ObjectName::HouseSmallRoofMiddle2 => 90,
            ObjectName::HouseSmallRoofRight2 => 91,
            ObjectName::HouseSmallDoorLeft1 => 92,
            ObjectName::HouseSmallWallMiddle1 => 93,
            ObjectName::HouseSmallDoorRight1 => 94,
            ObjectName::HouseSmallRoofLeft3 => 95,
            ObjectName::HouseSmallRoofMiddle3 => 96,
            ObjectName::HouseSmallRoofRight3 => 97,
            ObjectName::HouseSmallDoorLeft2 => 98,
            ObjectName::HouseSmallWallMiddle2 => 99,
            ObjectName::HouseSmallDoorRight2 => 100,
            ObjectName::HouseMediumRoofLeft1 => 101,
            ObjectName::HouseMediumRoofMiddle1 => 102,
            ObjectName::HouseMediumRoofRight1 => 103,
            ObjectName::HouseMediumWallLeft => 104,
            ObjectName::HouseMediumDoorMiddle => 105,
            ObjectName::HouseMediumWallRight => 106,
            ObjectName::HouseMediumRoofLeft2 => 107,
            ObjectName::HouseMediumRoofMiddle2 => 108,
            ObjectName::HouseMediumRoofRight2 => 109,
            ObjectName::HouseMediumDoorLeft1 => 110,
            ObjectName::HouseMediumWallMiddle1 => 111,
            ObjectName::HouseMediumDoorRight1 => 112,
            ObjectName::HouseMediumRoofLeft3 => 113,
            ObjectName::HouseMediumRoofMiddle3 => 114,
            ObjectName::HouseMediumRoofRight3 => 115,
            ObjectName::HouseMediumDoorLeft2 => 116,
            ObjectName::HouseMediumWallMiddle2 => 117,
            ObjectName::HouseMediumDoorRight2 => 118,
            ObjectName::WheatFieldFill => 119,
            ObjectName::WheatFieldSideTop => 120,
            ObjectName::WheatFieldSideRight => 121,
            ObjectName::WheatFieldSideBottom => 122,
            ObjectName::WheatFieldSideLeft => 123,
            ObjectName::WheatFieldOuterCornerTopLeft => 124,
            ObjectName::WheatFieldOuterCornerTopRight => 125,
            ObjectName::WheatFieldOuterCornerBottomRight => 126,
            ObjectName::WheatFieldOuterCornerBottomLeft => 127,
            ObjectName::WheatFieldInnerCornerTopLeft => 128,
            ObjectName::WheatFieldInnerCornerTopRight => 129,
            ObjectName::WheatFieldInnerCornerBottomRight => 130,
            ObjectName::WheatFieldInnerCornerBottomLeft => 131,
            ObjectName::PastureFill => 132,
            ObjectName::PastureSideTop => 133,
            ObjectName::PastureSideRight => 134,
            ObjectName::PastureSideBottom => 135,
            ObjectName::PastureSideLeft => 136,
            ObjectName::PastureOuterCornerTopLeft => 137,
            ObjectName::PastureOuterCornerTopRight => 138,
            ObjectName::PastureOuterCornerBottomRight => 139,
            ObjectName::PastureOuterCornerBottomLeft => 140,
            ObjectName::PastureInnerCornerTopLeft => 141,
            ObjectName::PastureInnerCornerTopRight => 142,
            ObjectName::PastureInnerCornerBottomRight => 143,
            ObjectName::PastureInnerCornerBottomLeft => 144,
            ObjectName::Land1IndividualObject1 => 145,
        }
    }

    /// Multi-tile objects (the forest trees) whose sprite spans more than one tile.
    pub open spec fn spec_is_multi_tile(self) -> bool {
        match self {
            ObjectName::ForestTree1 |
            ObjectName::ForestTree2 |
            ObjectName::ForestTree3 |
            ObjectName::ForestTree4 |
            ObjectName::ForestTree5 => true,
            _ => false,
        }
    }

    /// Returns whether this object's sprite spans more than one tile.
    pub fn is_multi_tile(&self) -> (result: bool)
        ensures
            result == self.spec_is_multi_tile(),
    {
        match self {
            ObjectName::ForestTree1 |
            ObjectName::ForestTree2 |
            ObjectName::ForestTree3 |
            ObjectName::ForestTree4 |
            ObjectName::ForestTree5 => true,
            _ => false,
        }
    }

    /// The path pieces, including the undefined path piece.
    pub open spec fn spec_is_path(self) -> bool {
        match self {
            ObjectName::PathUndefined |
            ObjectName::PathRight |
            ObjectName::PathHorizontal |
            ObjectName::PathCross |
            ObjectName::PathVertical |
            ObjectName::PathBottom |
            ObjectName::PathTop |
            ObjectName::PathLeft |
            ObjectName::PathTopRight |
            ObjectName::PathTopLeft |
            ObjectName::PathBottomRight |
            ObjectName::PathBottomLeft |
            ObjectName::PathTopHorizontal |
            ObjectName::PathBottomHorizontal |
            ObjectName::PathLeftVertical |
            ObjectName::PathRightVertical => true,
            _ => false,
        }
    }

    /// Returns whether this is a path piece.
    pub fn is_path(&self) -> (result: bool)
        ensures
            result == self.spec_is_path(),
    {
        match self {
            ObjectName::PathUndefined |
            ObjectName::PathRight |
            ObjectName::PathHorizontal |
            ObjectName::PathCross |
            ObjectName::PathVertical |
            ObjectName::PathBottom |
            ObjectName::PathTop |
            ObjectName::PathLeft |
            ObjectName::PathTopRight |
            ObjectName::PathTopLeft |
            ObjectName::PathBottomRight |
            ObjectName::PathBottomLeft |
            ObjectName::PathTopHorizontal |
            ObjectName::PathBottomHorizontal |
            ObjectName::PathLeftVertical |
            ObjectName::PathRightVertical => true,
            _ => false,
        }
    }

    /// The parts of small and medium houses.
    pub open spec fn spec_is_building(self) -> bool {
        match self {
            ObjectName::HouseSmallRoofLeft1 |
            ObjectName::HouseSmallRoofMiddle1 |
            ObjectName::HouseSmallRoofRight1 |
            ObjectName::HouseSmallWallLeft |
            ObjectName::HouseSmallDoorMiddle |
            ObjectName::HouseSmallWallRight |
            ObjectName::HouseSmallRoofLeft2 |
            ObjectName::HouseSmallRoofMiddle2 |
            ObjectName::HouseSmallRoofRight2 |
            ObjectName::HouseSmallDoorLeft1 |
            ObjectName::HouseSmallWallMiddle1 |
            ObjectName::HouseSmallDoorRight1 |
            ObjectName::HouseSmallRoofLeft3 |
            ObjectName::HouseSmallRoofMiddle3 |
            ObjectName::HouseSmallRoofRight3 |
            ObjectName::HouseSmallDoorLeft2 |
            ObjectName::HouseSmallWallMiddle2 |
            ObjectName::HouseSmallDoorRight2 |
            ObjectName::HouseMediumRoofLeft1 |
            ObjectName::HouseMediumRoofMiddle1 |
            ObjectName::HouseMediumRoofRight1 |
            ObjectName::HouseMediumWallLeft |
            ObjectName::HouseMediumDoorMiddle |
            ObjectName::HouseMediumWallRight |
            ObjectName::HouseMediumRoofLeft2 |
            ObjectName::HouseMediumRoofMiddle2 |
            ObjectName::HouseMediumRoofRight2 |
            ObjectName::HouseMediumDoorLeft1 |
            ObjectName::HouseMediumWallMiddle1 |
            ObjectName::HouseMediumDoorRight1 |
            ObjectName::HouseMediumRoofLeft3 |
            ObjectName::HouseMediumRoofMiddle3 |
            ObjectName::HouseMediumRoofRight3 |
            ObjectName::HouseMediumDoorLeft2 |
            ObjectName::HouseMediumWallMiddle2 |
            ObjectName::HouseMediumDoorRight2 => true,
            _ => false,
        }
    }

    /// Returns whether this is a part of a building.
    pub fn is_building(&self) -> (result: bool)
        ensures
            result == self.spec_is_building(),
    {
        match self {
            ObjectName::HouseSmallRoofLeft1 |
            ObjectName::HouseSmallRoofMiddle1 |
            ObjectName::HouseSmallRoofRight1 |
            ObjectName::HouseSmallWallLeft |
            ObjectName::HouseSmallDoorMiddle |
            ObjectName::HouseSmallWallRight |
            ObjectName::HouseSmallRoofLeft2 |
            ObjectName::HouseSmallRoofMiddle2 |
            ObjectName::HouseSmallRoofRight2 |
            ObjectName::HouseSmallDoorLeft1 |
            ObjectName::HouseSmallWallMiddle1 |
            ObjectName::HouseSmallDoorRight1 |
            ObjectName::HouseSmallRoofLeft3 |
            ObjectName::HouseSmallRoofMiddle3 |
            ObjectName::HouseSmallRoofRight3 |
            ObjectName::HouseSmallDoorLeft2 |
            ObjectName::HouseSmallWallMiddle2 |
            ObjectName::HouseSmallDoorRight2 |
            ObjectName::HouseMediumRoofLeft1 |
            ObjectName::HouseMediumRoofMiddle1 |
            ObjectName::HouseMediumRoofRight1 |
            ObjectName::HouseMediumWallLeft |
            ObjectName::HouseMediumDoorMiddle |
            ObjectName::HouseMediumWallRight |
            ObjectName::HouseMediumRoofLeft2 |
            ObjectName::HouseMediumRoofMiddle2 |
            ObjectName::HouseMediumRoofRight2 |
            ObjectName::HouseMediumDoorLeft1 |
            ObjectName::HouseMediumWallMiddle1 |
            ObjectName::HouseMediumDoorRight1 |
            ObjectName::HouseMediumRoofLeft3 |
            ObjectName::HouseMediumRoofMiddle3 |
            ObjectName::HouseMediumRoofRight3 |
            ObjectName::HouseMediumDoorLeft2 |
            ObjectName::HouseMediumWallMiddle2 |
            ObjectName::HouseMediumDoorRight2 => true,
            _ => false,
        }
    }

    /// The tiles of a wheat field.
    pub open spec fn spec_is_wheat_field(self) -> bool {
        match self {
            ObjectName::WheatFieldFill |
            ObjectName::WheatFieldSideTop |
            ObjectName::WheatFieldSideRight |
            ObjectName::WheatFieldSideBottom |
            ObjectName::WheatFieldSideLeft |
            ObjectName::WheatFieldOuterCornerTopLeft |
            ObjectName::WheatFieldOuterCornerTopRight |
            ObjectName::WheatFieldOuterCornerBottomRight |
            ObjectName::WheatFieldOuterCornerBottomLeft |
            ObjectName::WheatFieldInnerCornerTopLeft |
            ObjectName::WheatFieldInnerCornerTopRight |
            ObjectName::WheatFieldInnerCornerBottomRight |
            ObjectName::WheatFieldInnerCornerBottomLeft => true,
            _ => false,
        }
    }

    /// Returns whether this is a tile of a wheat field.
    pub fn is_wheat_field(&self) -> (result: bool)
        ensures
            result == self.spec_is_wheat_field(),
    {
        match self {
            ObjectName::WheatFieldFill |
            ObjectName::WheatFieldSideTop |
            ObjectName::WheatFieldSideRight |
            ObjectName::WheatFieldSideBottom |
            ObjectName::WheatFieldSideLeft |
            ObjectName::WheatFieldOuterCornerTopLeft |
            ObjectName::WheatFieldOuterCornerTopRight |
            ObjectName::WheatFieldOuterCornerBottomRight |
            ObjectName::WheatFieldOuterCornerBottomLeft |
            ObjectName::WheatFieldInnerCornerTopLeft |
            ObjectName::WheatFieldInnerCornerTopRight |
            ObjectName::WheatFieldInnerCornerBottomRight |
            ObjectName::WheatFieldInnerCornerBottomLeft => true,
            _ => false,
        }
    }

    /// The tiles of a pasture.
    pub open spec fn spec_is_pasture(self) -> bool {
        match self {
            ObjectName::PastureFill |
            ObjectName::PastureSideTop |
            ObjectName::PastureSideRight |
            ObjectName::PastureSideBottom |
            ObjectName::PastureSideLeft |
            ObjectName::PastureOuterCornerTopLeft |
            ObjectName::PastureOuterCornerTopRight |
            ObjectName::PastureOuterCornerBottomRight |
            ObjectName::PastureOuterCornerBottomLeft |
            ObjectName::PastureInnerCornerTopLeft |
            ObjectName::PastureInnerCornerTopRight |
            ObjectName::PastureInnerCornerBottomRight |
            ObjectName::PastureInnerCornerBottomLeft => true,
            _ => false,
        }
    }

    /// Returns whether this is a tile of a pasture.
    pub fn is_pasture(&self) -> (result: bool)
        ensures
            result == self.spec_is_pasture(),
    {
        match self {
            ObjectName::PastureFill |
            ObjectName::PastureSideTop |
            ObjectName::PastureSideRight |
            ObjectName::PastureSideBottom |
            ObjectName::PastureSideLeft |
            ObjectName::PastureOuterCornerTopLeft |
            ObjectName::PastureOuterCornerTopRight |
            ObjectName::PastureOuterCornerBottomRight |
            ObjectName::PastureOuterCornerBottomLeft |
            ObjectName::PastureInnerCornerTopLeft |
            ObjectName::PastureInnerCornerTopRight |
            ObjectName::PastureInnerCornerBottomRight |
            ObjectName::PastureInnerCornerBottomLeft => true,
            _ => false,
        }
    }

    /// The tiles of any field (wheat field or pasture).
    pub open spec fn spec_is_field(self) -> bool {
        self.spec_is_wheat_field() || self.spec_is_pasture()
    }

    /// Returns whether this is a tile of a wheat field or a pasture.
    pub fn is_field(&self) -> (result: bool)
        ensures
            result == self.spec_is_field(),
    {
        self.is_wheat_field() || self.is_pasture()
    }

    /// The sprite index of a path piece; `47` for every name that is not a defined path piece.
    pub open spec fn spec_path_index(self) -> i32 {
        match self {
            ObjectName::PathRight => 32,
            ObjectName::PathHorizontal => 33,
            ObjectName::PathCross => 34,
            ObjectName::PathVertical => 35,
            ObjectName::PathBottom => 36,
            ObjectName::PathTop => 37,
            ObjectName::PathLeft => 38,
            ObjectName::PathTopRight => 39,
            ObjectName::PathTopLeft => 40,
            ObjectName::PathBottomRight => 41,
            ObjectName::PathBottomLeft => 42,
            ObjectName::PathTopHorizontal => 43,
            ObjectName::PathBottomHorizontal => 44,
            ObjectName::PathLeftVertical => 45,
            ObjectName::PathRightVertical => 46,
            _ => 47,
        }
    }

    /// The sprite index of a path piece; `47` for every name that is not a defined path piece.
    pub fn get_index_for_path(&self) -> (index: i32)
        ensures
            index == self.spec_path_index(),
    {
        match self {
            ObjectName::PathRight => 32,
            ObjectName::PathHorizontal => 33,
            ObjectName::PathCross => 34,
            ObjectName::PathVertical => 35,
            ObjectName::PathBottom => 36,
            ObjectName::PathTop => 37,
            ObjectName::PathLeft => 38,
            ObjectName::PathTopRight => 39,
            ObjectName::PathTopLeft => 40,
            ObjectName::PathBottomRight => 41,
            ObjectName::PathBottomLeft => 42,
            ObjectName::PathTopHorizontal => 43,
            ObjectName::PathBottomHorizontal => 44,
            ObjectName::PathLeftVertical => 45,
            ObjectName::PathRightVertical => 46,
            _ => 47,
        }
    }

    /// The sprite index of a building part; `0` for every name that is not a building part.
    pub open spec fn spec_building_index(self) -> i32 {
        match self {
            ObjectName::HouseSmallRoofLeft1 => 1,
            ObjectName::HouseSmallRoofMiddle1 => 2,
            ObjectName::HouseSmallRoofRight1 => 3,
            ObjectName::HouseSmallWallLeft => 10,
            ObjectName::HouseSmallDoorMiddle => 11,
            ObjectName::HouseSmallWallRight => 12,
            ObjectName::HouseSmallRoofLeft2 => 19,
            ObjectName::HouseSmallRoofMiddle2 => 20,
            ObjectName::HouseSmallRoofRight2 => 21,
            ObjectName::HouseSmallDoorLeft1 => 28,
            ObjectName::HouseSmallWallMiddle1 => 29,
            ObjectName::HouseSmallDoorRight1 => 30,
            ObjectName::HouseSmallRoofLeft3 => 37,
            ObjectName::HouseSmallRoofMiddle3 => 38,
            ObjectName::HouseSmallRoofRight3 => 39,
            ObjectName::HouseSmallDoorLeft2 => 46,
            ObjectName::HouseSmallWallMiddle2 => 47,
            ObjectName::HouseSmallDoorRight2 => 48,
            ObjectName::HouseMediumRoofLeft1 => 4,
            ObjectName::HouseMediumRoofMiddle1 => 5,
            ObjectName::HouseMediumRoofRight1 => 6,
            ObjectName::HouseMediumWallLeft => 13,
            ObjectName::HouseMediumDoorMiddle => 14,
            ObjectName::HouseMediumWallRight => 15,
            ObjectName::HouseMediumRoofLeft2 => 22,
            ObjectName::HouseMediumRoofMiddle2 => 23,
            ObjectName::HouseMediumRoofRight2 => 24,
            ObjectName::HouseMediumDoorLeft1 => 31,
            ObjectName::HouseMediumWallMiddle1 => 32,
            ObjectName::HouseMediumDoorRight1 => 33,
            ObjectName::HouseMediumRoofLeft3 => 40,
            ObjectName::HouseMediumRoofMiddle3 => 41,
            ObjectName::HouseMediumRoofRight3 => 42,
            ObjectName::HouseMediumDoorLeft2 => 49,
            ObjectName::HouseMediumWallMiddle2 => 50,
            ObjectName::HouseMediumDoorRight2 => 51,
            _ => 0,
        }
    }

    /// The sprite index of a building part; `0` for every name that is not a building part.
    pub fn get_index_for_building(&self) -> (index: i32)
        ensures
            index == self.spec_building_index(),
    {
        match self {
            ObjectName::HouseSmallRoofLeft1 => 1,
            ObjectName::HouseSmallRoofMiddle1 => 2,
            ObjectName::HouseSmallRoofRight1 => 3,
            ObjectName::HouseSmallWallLeft => 10,
            ObjectName::HouseSmallDoorMiddle => 11,
            ObjectName::HouseSmallWallRight => 12,
            ObjectName::HouseSmallRoofLeft2 => 19,
            ObjectName::HouseSmallRoofMiddle2 => 20,
            ObjectName::HouseSmallRoofRight2 => 21,
            ObjectName::HouseSmallDoorLeft1 => 28,
            ObjectName::HouseSmallWallMiddle1 => 29,
            ObjectName::HouseSmallDoorRight1 => 30,
            ObjectName::HouseSmallRoofLeft3 => 37,
            ObjectName::HouseSmallRoofMiddle3 => 38,
            ObjectName::HouseSmallRoofRight3 => 39,
            ObjectName::HouseSmallDoorLeft2 => 46,
            ObjectName::HouseSmallWallMiddle2 => 47,
            ObjectName::HouseSmallDoorRight2 => 48,
            ObjectName::HouseMediumRoofLeft1 => 4,
            ObjectName::HouseMediumRoofMiddle1 => 5,
            ObjectName::HouseMediumRoofRight1 => 6,
            ObjectName::HouseMediumWallLeft => 13,
            ObjectName::HouseMediumDoorMiddle => 14,
            ObjectName::HouseMediumWallRight => 15,
            ObjectName::HouseMediumRoofLeft2 => 22,
            ObjectName::HouseMediumRoofMiddle2 => 23,
            ObjectName::HouseMediumRoofRight2 => 24,
            ObjectName::HouseMediumDoorLeft1 => 31,
            ObjectName::HouseMediumWallMiddle1 => 32,
            ObjectName::HouseMediumDoorRight1 => 33,
            ObjectName::HouseMediumRoofLeft3 => 40,
            ObjectName::HouseMediumRoofMiddle3 => 41,
            ObjectName::HouseMediumRoofRight3 => 42,
            ObjectName::HouseMediumDoorLeft2 => 49,
            ObjectName::HouseMediumWallMiddle2 => 50,
            ObjectName::HouseMediumDoorRight2 => 51,
            _ => 0,
        }
    }
    /// The sprite index of a path piece or building part. Path pieces take precedence over building parts (no name is
    /// both).
    pub open spec fn spec_sprite_index(self) -> i32 {
        if self.spec_is_path() {
            self.spec_path_index()
        } else {
            self.spec_building_index()
        }
    }

    /// Returns the sprite index of a path piece or a building part. Other objects have their sprite index determined
    /// by their terrain state, so asking for it here is a caller error.
    pub fn get_sprite_index(&self) -> (index: i32)
        requires
            self.spec_is_path() || self.spec_is_building(),
        ensures
            index == self.spec_sprite_index(),
    {
        if self.is_path() {
            self.get_index_for_path()
        } else {
            self.get_index_for_building()
        }
    }

    /// Maps each name back to itself through its ordinal, so that distinct names have distinct ordinals.
    pub proof fn lemma_ordinal_round_trip(self)
        ensures
            ObjectName::from_ordinal(self.ordinal()) == self,
            self.ordinal() < OBJECT_NAME_COUNT,
    {
    }

    /// Distinct names have distinct ordinals.
    pub proof fn lemma_ordinal_injective(a: ObjectName, b: ObjectName)
        ensures
            a.ordinal() == b.ordinal() ==> a == b,
    {
        a.lemma_ordinal_round_trip();
        b.lemma_ordinal_round_trip();
    }

    /// Returns the name with the given ordinal, if there is one.
    pub fn from_index(index: usize) -> (name: Option<ObjectName>)
        ensures
            index < OBJECT_NAME_COUNT ==> name == Some(ObjectName::from_ordinal(index as nat)),
            index < OBJECT_NAME_COUNT ==> name.unwrap().ordinal() == index,
            index >= OBJECT_NAME_COUNT ==> name.is_none(),
    {
        match index {
            0 => Some(ObjectName::Empty),
            1 => Some(ObjectName::SandStone1),
            2 => Some(ObjectName::SandStone2),
            3 => Some(ObjectName::SandStone3),
            4 => Some(ObjectName::SandStone4),
            5 => Some(ObjectName::SandStone5),
            6 => Some(ObjectName::SandStone6),
            7 => Some(ObjectName::SandGrassPatch1),
            8 => Some(ObjectName::SandGrassPatch2),
            9 => Some(ObjectName::SandPattern1),
            10 => Some(ObjectName::SandPattern2),
            11 => Some(ObjectName::SandPattern3),
            12 => Some(ObjectName::SandPattern4),
            13 => Some(ObjectName::SandPattern5),
            14 => Some(ObjectName::SandPathLeft),
            15 => Some(ObjectName::SandPathRight),
            16 => Some(ObjectName::SandPathTop),
            17 => Some(ObjectName::SandPathBottom),
            18 => Some(ObjectName::SandPathCross),
            19 => Some(ObjectName::SandPathHorizontal),
            20 => Some(ObjectName::SandPathVertical),
            21 => Some(ObjectName::SandStoneTopFill1),
            22 => Some(ObjectName::SandStoneTopFill2),
            23 => Some(ObjectName::SandStoneTopRightFill),
            24 => Some(ObjectName::SandStoneTopLeftFill),
            25 => Some(ObjectName::SandStoneRightFill),
            26 => Some(ObjectName::SandStoneLeftFill),
            27 => Some(ObjectName::SandStoneBottomRightFill),
            28 => Some(ObjectName::SandStoneBottomLeftFill),
            29 => Some(ObjectName::GrassRubbleLeft),
            30 => Some(ObjectName::GrassRubbleRight),
            31 => Some(ObjectName::GrassRubbleTop),
            32 => Some(ObjectName::GrassRubbleBottom),
            33 => Some(ObjectName::GrassRubbleCross),
            34 => Some(ObjectName::GrassRubbleHorizontal),
            35 => Some(ObjectName::GrassRubbleVertical),
            36 => Some(ObjectName::GrassRubbleVerticalForestTop),
            37 => Some(ObjectName::GrassRubbleVerticalForestBottom),
            38 => Some(ObjectName::GrassRubbleHorizontalForestRight),
            39 => Some(ObjectName::GrassRubbleHorizontalForestLeft),
            40 => Some(ObjectName::GrassBush1),
            41 => Some(ObjectName::GrassBush2),
            42 => Some(ObjectName::GrassBush3),
            43 => Some(ObjectName::GrassBush4),
            44 => Some(ObjectName::GrassFlower1),
            45 => Some(ObjectName::GrassFlower2),
            46 => Some(ObjectName::GrassFlower3),
            47 => Some(ObjectName::ForestRuinLeft),
            48 => Some(ObjectName::ForestRuinRight),
            49 => Some(ObjectName::ForestRuinTop),
            50 => Some(ObjectName::ForestRuinBottom),
            51 => Some(ObjectName::ForestRuinCross),
            52 => Some(ObjectName::ForestRuinHorizontal),
            53 => Some(ObjectName::ForestRuinVertical),
            54 => Some(ObjectName::ForestRuinVerticalGrassTop),
            55 => Some(ObjectName::ForestRuinVerticalGrassBottom),
            56 => Some(ObjectName::ForestRuinHorizontalGrassRight),
            57 => Some(ObjectName::ForestRuinHorizontalGrassLeft),
            58 => Some(ObjectName::ForestTree1),
            59 => Some(ObjectName::ForestTree2),
            60 => Some(ObjectName::ForestTree3),
            61 => Some(ObjectName::ForestTree4),
            62 => Some(ObjectName::ForestTree5),
            63 => Some(ObjectName::ForestBush1),
            64 => Some(ObjectName::ForestBush2),
            65 => Some(ObjectName::ForestBush3),
            66 => Some(ObjectName::ForestBush4),
            67 => Some(ObjectName::PathRight),
            68 => Some(ObjectName::PathHorizontal),
            69 => Some(ObjectName::PathCross),
            70 => Some(ObjectName::PathVertical),
            71 => Some(ObjectName::PathBottom),
            72 => Some(ObjectName::PathTop),
            73 => Some(ObjectName::PathLeft),
            74 => Some(ObjectName::PathTopRight),
            75 => Some(ObjectName::PathTopLeft),
            76 => Some(ObjectName::PathBottomRight),
            77 => Some(ObjectName::PathBottomLeft),
            78 => Some(ObjectName::PathTopHorizontal),
            79 => Some(ObjectName::PathBottomHorizontal),
            80 => Some(ObjectName::PathLeftVertical),
            81 => Some(ObjectName::PathRightVertical),
            82 => Some(ObjectName::PathUndefined),
            83 => Some(ObjectName::HouseSmallRoofLeft1),
            84 => Some(ObjectName::HouseSmallRoofMiddle1),
            85 => Some(ObjectName::HouseSmallRoofRight1),
            86 => Some(ObjectName::HouseSmallWallLeft),
            87 => Some(ObjectName::HouseSmallDoorMiddle),
            88 => Some(ObjectName::HouseSmallWallRight),
            89 => Some(ObjectName::HouseSmallRoofLeft2),
            90 => Some(ObjectName::HouseSmallRoofMiddle2),
            91 => Some(ObjectName::HouseSmallRoofRight2),
            92 => Some(ObjectName::HouseSmallDoorLeft1),
            93 => Some(ObjectName::HouseSmallWallMiddle1),
            94 => Some(ObjectName::HouseSmallDoorRight1),
            95 => Some(ObjectName::HouseSmallRoofLeft3),
            96 => Some(ObjectName::HouseSmallRoofMiddle3),
            97 => Some(ObjectName::HouseSmallRoofRight3),
            98 => Some(ObjectName::HouseSmallDoorLeft2),
            99 => Some(ObjectName::HouseSmallWallMiddle2),
            100 => Some(ObjectName::HouseSmallDoorRight2),
            101 => Some(ObjectName::HouseMediumRoofLeft1),
            102 => Some(ObjectName::HouseMediumRoofMiddle1),
            103 => Some(ObjectName::HouseMediumRoofRight1),
            104 => Some(ObjectName::HouseMediumWallLeft),
            105 => Some(ObjectName::HouseMediumDoorMiddle),
            106 => Some(ObjectName::HouseMediumWallRight),
            107 => Some(ObjectName::HouseMediumRoofLeft2),
            108 => Some(ObjectName::HouseMediumRoofMiddle2),
            109 => Some(ObjectName::HouseMediumRoofRight2),
            110 => Some(ObjectName::HouseMediumDoorLeft1),
            111 => Some(ObjectName::HouseMediumWallMiddle1),
            112 => Some(ObjectName::HouseMediumDoorRight1),
            113 => Some(ObjectName::HouseMediumRoofLeft3),
            114 => Some(ObjectName::HouseMediumRoofMiddle3),
            115 => Some(ObjectName::HouseMediumRoofRight3),
            116 => Some(ObjectName::HouseMediumDoorLeft2),
            117 => Some(ObjectName::HouseMediumWallMiddle2),
            118 => Some(ObjectName::HouseMediumDoorRight2),
            119 => Some(ObjectName::WheatFieldFill),
            120 => Some(ObjectName::WheatFieldSideTop),
            121 => Some(ObjectName::WheatFieldSideRight),
            122 => Some(ObjectName::WheatFieldSideBottom),
            123 => Some(ObjectName::WheatFieldSideLeft),
            124 => Some(ObjectName::WheatFieldOuterCornerTopLeft),
            125 => Some(ObjectName::WheatFieldOuterCornerTopRight),
            126 => Some(ObjectName::WheatFieldOuterCornerBottomRight),
            127 => Some(ObjectName::WheatFieldOuterCornerBottomLeft),
            128 => Some(ObjectName::WheatFieldInnerCornerTopLeft),
            129 => Some(ObjectName::WheatFieldInnerCornerTopRight),
            130 => Some(ObjectName::WheatFieldInnerCornerBottomRight),
            131 => Some(ObjectName::WheatFieldInnerCornerBottomLeft),
            132 => Some(ObjectName::PastureFill),
            133 => Some(ObjectName::PastureSideTop),
            134 => Some(ObjectName::PastureSideRight),
            135 => Some(ObjectName::PastureSideBottom),
            136 => Some(ObjectName::PastureSideLeft),
            137 => Some(ObjectName::PastureOuterCornerTopLeft),
            138 => Some(ObjectName::PastureOuterCornerTopRight),
            139 => Some(ObjectName::PastureOuterCornerBottomRight),
            140 => Some(ObjectName::PastureOuterCornerBottomLeft),
            141 => Some(ObjectName::PastureInnerCornerTopLeft),
            142 => Some(ObjectName::PastureInnerCornerTopRight),
            143 => Some(ObjectName::PastureInnerCornerBottomRight),
            144 => Some(ObjectName::PastureInnerCornerBottomLeft),
            145 => Some(ObjectName::Land1IndividualObject1),
            _ => None,
        }
    }

    /// Returns every name, in declaration order.
    pub fn all() -> (names: Vec<ObjectName>)
        ensures
            names@.len() == OBJECT_NAME_COUNT,
            forall|i: int| 0 <= i < names@.len() ==> (#[trigger] names@[i]).ordinal() == i,
    {
        let mut names: Vec<ObjectName> = Vec::new();
        let mut i: usize = 0;
        while i < OBJECT_NAME_COUNT
            invariant
                i <= OBJECT_NAME_COUNT,
                names@.len() == i,
                forall|j: int| 0 <= j < names@.len() ==> (#[trigger] names@[j]).ordinal() == j,
            decreases OBJECT_NAME_COUNT - i,
        {
            let name = ObjectName::from_index(i);
            names.push(name.unwrap());
            i = i + 1;
        }
        names
    }
}

} // verus!
