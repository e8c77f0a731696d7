use ai_step_gen_suite::biomechanics::PlayMode;
use ai_step_gen_suite::commands::build_preview_prompt;

fn expected_prompt(
    section_id: &str,
    play_mode: PlayMode,
    target_level: u32,
    start_m_val: u32,
    end_m_val: u32,
    s_type_val: &str,
    intent_info: &str,
) -> String {
    let num_measures = end_m_val - start_m_val + 1;
    let play_mode_name = match play_mode {
        PlayMode::Single => "Single (5 flechas)",
        PlayMode::Double => "Double (10 flechas)",
    };
    format!(
        "Eres un stepmaker experto de Pump It Up. Genera un chart coreográfico de Pump It Up para la sección '{}' de la canción. \
         Detalles de la Canción y Sección:\n\
         - Modo de Juego: {}\n\
         - Nivel de Dificultad Solicitado: {}\n\
         - Rango de Compases (Measures): {} a {} (ambos inclusive)\n\
         - Tipo de Canción: {}\n\
         {}\n\
         [CONTRATO Y FORMATO DE RESPUESTA]\n\
         Debes responder EXCLUSIVAMENTE en formato JSON, sin bloques de código markdown (como ```json) y sin explicaciones. El esquema JSON debe ser exactamente:\n\
         {{\n\
           \"section_id\": \"{}\",\n\
           \"difficulty_level\": {},\n\
           \"play_mode\": \"{:?}\",\n\
           \"biomechanical_state\": {{\n\
             \"current_twist_debt\": 0.0,\n\
             \"current_stamina_debt\": 0.0,\n\
             \"last_left_foot_lane\": null,\n\
             \"last_right_foot_lane\": null\n\
           }},\n\
           \"measures\": [\n\
             {{\n\
               \"measure_index\": {},\n\
               \"subdivision\": 4, \n\
               \"rows\": [\"10000\", \"01000\", \"00100\", \"00010\"]\n\
             }}\n\
           ]\n\
         }}\n\
         \n\
         [REGLAS BIOMECÁNICAS Y TÉCNICAS]\n\
         1. Caracteres permitidos: Solo '0' (vacío), '1' (tap), '2' (inicio de hold/congelador), '3' (fin de hold/congelador). Queda ESTRICTAMENTE PROHIBIDO el uso de minas ('M').\n\
         2. Longitud de fila: Para Single, cada fila debe medir exactamente 5 caracteres (esquina inferior-izquierda, esquina superior-izquierda, centro-amarillo, esquina superior-derecha, esquina inferior-derecha). Para Double, debe medir exactamente 10 caracteres.\n\
         3. Subdivisiones: Solo se permiten subdivisiones de 4, 8, 16 o 32 filas por compás. La cantidad de filas en 'rows' debe coincidir EXACTAMENTE con el valor de 'subdivision'.\n\
         4. Jumps (Saltos): Un jump es presionar 2 o más flechas a la vez. No coloques jumps consecutivos a alta velocidad.\n\
         5. Triple Taps: En niveles < 16, evita triples. En niveles 16+ se permiten como Brackets (puntero-talón).\n\
         6. Alternancia de pies: Evita double-steps rápidos (Jack rápido) en la misma flecha consecutivamente en streams de subdivision 16+.\n\
         7. Giros y torso (Twists): Si el chart exige cruces que rotan el torso, asegúrate de proveer un contra-giro (untwist) de retorno inmediato para neutralizar la cadera.\n\
         \n\
         Genera el array de 'measures' de tamaño exactamente {} (una por cada compás desde {} hasta {}).",
        section_id, play_mode_name, target_level, start_m_val, end_m_val, s_type_val, intent_info,
        section_id, target_level, play_mode, start_m_val,
        num_measures, start_m_val, end_m_val
    )
}

#[test]
fn section_prompt_carries_the_request_and_rules() {
    let intent = "\n[INFORMACIÓN COREOGRÁFICA DE LA CANCIÓN (Music Analysis Engine)]\n- Objetivo de Densidad: high\n";
    let p = build_preview_prompt("chorus_1", PlayMode::Single, 17, 8, 15, "ARCADE", intent);
    assert_eq!(p, expected_prompt("chorus_1", PlayMode::Single, 17, 8, 15, "ARCADE", intent));
    assert!(p.contains("\"measure_index\": 8,"));
    assert!(p.ends_with("Genera el array de 'measures' de tamaño exactamente 8 (una por cada compás desde 8 hasta 15)."));
    let d = build_preview_prompt("intro", PlayMode::Double, 3, 0, 0, "Arcade", "");
    assert_eq!(d, expected_prompt("intro", PlayMode::Double, 3, 0, 0, "Arcade", ""));
    assert!(d.contains("\"play_mode\": \"Double\""));
}
