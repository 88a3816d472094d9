use geo_types::{Coord, LineString};
use geojson::{GeoJson, Geometry, Value};
use tweet_trajectories::algo::window::coordinates;
use tweet_trajectories::assemble::assemble;
use tweet_trajectories::{Coordinate, Double, TrajectoryPoint, User};

fn at(lon: f64, lat: f64, timestamp: i64) -> TrajectoryPoint {
    TrajectoryPoint {
        point: Coordinate {
            x: Double::from_bits(lon.to_bits()),
            y: Double::from_bits(lat.to_bits()),
        },
        timestamp,
    }
}

fn author() -> User {
    User { id: 1, name: String::from("Ada"), screen_name: String::from("ada") }
}

#[test]
fn a_line_written_as_geojson_is_read_back_as_it_was() {
    let trajectories = assemble(vec![
        (author(), at(13.404954, 52.520008, 300)),
        (author(), at(-0.127758, 51.507351, 100)),
        (author(), at(2.352222, 48.856613, 200)),
        (author(), at(-73.985664, 40.748441, 400)),
    ]);
    assert_eq!(trajectories.len(), 1);
    let coords: Vec<Coord<f64>> = coordinates(&trajectories[0].points)
        .iter()
        .map(|c| Coord { x: f64::from_bits(c.x.to_bits()), y: f64::from_bits(c.y.to_bits()) })
        .collect();
    let line = LineString::from(coords);
    let written = GeoJson::Geometry(Geometry::new(Value::from(&line))).to_string();

    let read: GeoJson = written.parse().unwrap();
    let geometry = match read {
        GeoJson::Geometry(geometry) => geometry,
        _ => panic!("a geometry was written"),
    };
    let line_read = LineString::<f64>::try_from(geometry.value).unwrap();
    assert_eq!(line_read, line);
    let lons: Vec<f64> = line_read.0.iter().map(|c| c.x).collect();
    let lats: Vec<f64> = line_read.0.iter().map(|c| c.y).collect();
    assert_eq!(lons, vec![-0.127758, 2.352222, 13.404954, -73.985664]);
    assert_eq!(lats, vec![51.507351, 48.856613, 52.520008, 40.748441]);
}
